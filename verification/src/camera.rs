//! Two cameras on one mesh: one that goes round it, and one that flies freely.
//!
//! Positive Z is up. Angles are in radians, and distances on the screen in points.
use crate::arithmetic;
use crate::arithmetic::Arithmetic;
use crate::input::ScreenPoint;
use crate::optics::{Clip, Matrix, Optics, View};
use crate::scalar;
use crate::scalar::Point;
use vstd::prelude::*;

verus! {

/// The bit pattern of `1.0` turned round.
pub const MINUS_ONE: u32 = 0xbf80_0000;

/// The bit pattern of a whole turn.
pub const TAU: u32 = 0x40c9_0fdb;

/// How far up a camera looks at most: a hundredth less than a quarter turn.
pub const STEEPEST: u32 = 0x3fc7_c82d;

/// How far down a camera looks at most.
pub const STEEPEST_DOWN: u32 = 0xbfc7_c82d;

/// The bit pattern of `0.008`.
pub const ORBIT_RADIANS_PER_POINT: u32 = 0x3c03_126f;

/// The bit pattern of `0.0025`.
pub const FLY_RADIANS_PER_POINT: u32 = 0x3b23_d70a;

/// The bit pattern of `0.15`.
pub const INITIAL_FLY_SPEED: u32 = 0x3e19_999a;

/// The bit pattern of `0.002`.
pub const MIN_FLY_SPEED: u32 = 0x3b03_126f;

/// The bit pattern of `2.0`.
pub const MAX_FLY_SPEED: u32 = 0x4000_0000;

/// The bit pattern of `4.0`, by which flight is faster as long as it is boosted.
pub const FLY_BOOST: u32 = 0x4080_0000;

/// The bit pattern of `0.1`.
pub const MAX_FLY_DELTA_SECONDS: u32 = 0x3dcc_cccd;

/// The bit pattern of `240.0`.
pub const MAX_FLY_WHEEL_POINTS: u32 = 0x4370_0000;

/// The bit pattern of `-240.0`.
pub const MIN_FLY_WHEEL_POINTS: u32 = 0xc370_0000;

/// The bit pattern of `0.005`.
pub const FLY_WHEEL_EXPONENT_PER_POINT: u32 = 0x3ba3_d70a;

/// The bit pattern of `0.0015`.
pub const ZOOM_EXPONENT_PER_POINT: u32 = 0x3ac4_9ba6;

/// The bit pattern of `0.0001`, below which no scene and no distance is taken to be.
pub const SMALLEST_SCENE: u32 = 0x38d1_b717;

/// The bit pattern of `0.000001`.
pub const NEAREST: u32 = 0x3586_37bd;

/// The bit pattern of `1.15`, the room left round a framed mesh.
pub const FRAME_MARGIN: u32 = 0x3f93_3333;

/// The bit pattern of 45 degrees.
pub const FIELD_OF_VIEW: u32 = 0x3f49_0fdb;

/// The bit pattern of 5 degrees.
pub const NARROWEST_VIEW: u32 = 0x3db2_b8c2;

/// The bit pattern of 120 degrees.
pub const WIDEST_VIEW: u32 = 0x4006_0a92;

/// The bit pattern of one over the root of three.
pub const CUBE_HALF: u32 = 0x3f13_cd3a;

/// The bit pattern of the same, turned round.
pub const MINUS_CUBE_HALF: u32 = 0xbf13_cd3a;

/// The bit pattern of `0.45`.
pub const INITIAL_YAW: u32 = 0x3ee6_6666;

/// The bit pattern of `0.2`.
pub const INITIAL_PITCH: u32 = 0x3e4c_cccd;

/// The bit pattern of `0.001`.
pub const THOUSANDTH: u32 = 0x3a83_126f;

/// The bit pattern of `0.005`, the closest zoom in radii of the scene.
pub const CLOSEST_ZOOM: u32 = 0x3ba3_d70a;

/// The bit pattern of `10000.0`, the farthest zoom in radii of the scene.
pub const FARTHEST_ZOOM: u32 = 0x461c_4000;

/// The bit pattern of `2.5`.
pub const ORBIT_NEAR_RADII: u32 = 0x4020_0000;

/// The bit pattern of `1.75`.
pub const FLY_NEAR_RADII: u32 = 0x3fe0_0000;

/// The bit pattern of `4.0`.
pub const FAR_RADII: u32 = 0x4080_0000;

/// A ray from the camera through a point of the screen.
#[derive(Clone, Copy, Debug, PartialEq, Eq, Structural)]
pub struct Ray {
    pub origin: Point,
    pub direction: Point,
}

/// A part of the screen.
#[derive(Clone, Copy, Debug, PartialEq, Eq, Structural)]
pub struct ScreenRect {
    pub min: ScreenPoint,
    pub max: ScreenPoint,
}

impl ScreenRect {
    pub open spec fn spec_width<O: Arithmetic>(self, ops: &O) -> u32 {
        ops.spec_difference(self.max.x, self.min.x)
    }

    pub open spec fn spec_height<O: Arithmetic>(self, ops: &O) -> u32 {
        ops.spec_difference(self.max.y, self.min.y)
    }

    pub fn width<O: Arithmetic>(&self, ops: &O) -> (result: u32)
        requires
            ops.total(),
        ensures
            result == self.spec_width(ops),
    {
        ops.difference(self.max.x, self.min.x)
    }

    pub fn height<O: Arithmetic>(&self, ops: &O) -> (result: u32)
        requires
            ops.total(),
        ensures
            result == self.spec_height(ops),
    {
        ops.difference(self.max.y, self.min.y)
    }

    /// Whether a point lies in the rectangle or on its border.
    pub open spec fn holds(self, point: ScreenPoint) -> bool {
        &&& scalar::le(self.min.x, point.x) && scalar::le(point.x, self.max.x)
        &&& scalar::le(self.min.y, point.y) && scalar::le(point.y, self.max.y)
    }

    pub fn contains(&self, point: ScreenPoint) -> (result: bool)
        ensures
            result == self.holds(point),
    {
        scalar::is_at_most(self.min.x, point.x) && scalar::is_at_most(point.x, self.max.x)
            && scalar::is_at_most(self.min.y, point.y) && scalar::is_at_most(point.y, self.max.y)
    }
}

/// What a camera shows, fixed at one moment.
#[derive(Clone, Copy, Debug, PartialEq, Eq, Structural)]
pub struct CameraFrame {
    pub viewport: ScreenRect,
    pub eye: Point,
    pub right: Point,
    pub up: Point,
    pub view_projection: Matrix,
    pub inverse_view_projection: Matrix,
    pub world_units_per_point: u32,
    pub distance: u32,
}

/// Where a point of clip space lies in the world.
pub open spec fn unprojected<O: Arithmetic, T: Optics>(
    ops: &O,
    optics: &T,
    inverse: Matrix,
    clip: Clip,
) -> Option<Point> {
    let world = optics.spec_transform(inverse, clip);
    if !world.finite() || scalar::le(scalar::magnitude(world.w) as u32, scalar::EPSILON) {
        None
    } else {
        Some(arithmetic::spec_over(ops, Point { x: world.x, y: world.y, z: world.z }, world.w))
    }
}

pub fn unproject<O: Arithmetic, T: Optics>(
    ops: &O,
    optics: &T,
    inverse: Matrix,
    clip: Clip,
) -> (result: Option<Point>)
    requires
        ops.total(),
        optics.total(),
    ensures
        result == unprojected(ops, optics, inverse, clip),
{
    let world = optics.transform(inverse, clip);
    if !world.is_finite() || scalar::is_at_most(scalar::absolute(world.w), scalar::EPSILON) {
        None
    } else {
        Some(arithmetic::over(ops, Point { x: world.x, y: world.y, z: world.z }, world.w))
    }
}

impl CameraFrame {
    /// How far across the viewport a point is, from -1 at the left to 1 at the right.
    pub open spec fn across<O: Arithmetic>(self, ops: &O, pointer: ScreenPoint) -> u32 {
        ops.spec_difference(
            ops.spec_product(
                ops.spec_quotient(
                    ops.spec_difference(pointer.x, self.viewport.min.x),
                    self.viewport.spec_width(ops),
                ),
                scalar::TWO,
            ),
            scalar::ONE,
        )
    }

    /// How far up the viewport a point is, from -1 at the bottom to 1 at the top.
    pub open spec fn upward<O: Arithmetic>(self, ops: &O, pointer: ScreenPoint) -> u32 {
        ops.spec_difference(
            scalar::ONE,
            ops.spec_product(
                ops.spec_quotient(
                    ops.spec_difference(pointer.y, self.viewport.min.y),
                    self.viewport.spec_height(ops),
                ),
                scalar::TWO,
            ),
        )
    }

    /// The ray through a point of the screen: from the eye, along the line from the nearest to the
    /// farthest point that is seen there.
    pub open spec fn spec_screen_ray<O: Arithmetic, T: Optics>(
        self,
        ops: &O,
        optics: &T,
        pointer: ScreenPoint,
    ) -> Option<Ray> {
        let (x, y) = (self.across(ops, pointer), self.upward(ops, pointer));
        let near = unprojected(
            ops,
            optics,
            self.inverse_view_projection,
            Clip { x, y, z: scalar::ZERO, w: scalar::ONE },
        );
        let far = unprojected(
            ops,
            optics,
            self.inverse_view_projection,
            Clip { x, y, z: scalar::ONE, w: scalar::ONE },
        );
        if !self.viewport.holds(pointer) || near is None || far is None {
            None
        } else {
            let direction = arithmetic::spec_unit(
                ops,
                arithmetic::spec_minus(ops, far->0, near->0),
            );
            if direction.same(arithmetic::origin()) || !direction.finite() {
                None
            } else {
                Some(Ray { origin: self.eye, direction })
            }
        }
    }

    #[must_use]
    pub fn screen_ray<O: Arithmetic, T: Optics>(
        self,
        pointer: ScreenPoint,
        ops: &O,
        optics: &T,
    ) -> (result: Option<Ray>)
        requires
            ops.total(),
            optics.total(),
        ensures
            result == self.spec_screen_ray(ops, optics, pointer),
    {
        if !self.viewport.contains(pointer) {
            return None;
        }
        let x = ops.difference(
            ops.product(
                ops.quotient(
                    ops.difference(pointer.x, self.viewport.min.x),
                    self.viewport.width(ops),
                ),
                scalar::TWO,
            ),
            scalar::ONE,
        );
        let y = ops.difference(
            scalar::ONE,
            ops.product(
                ops.quotient(
                    ops.difference(pointer.y, self.viewport.min.y),
                    self.viewport.height(ops),
                ),
                scalar::TWO,
            ),
        );
        let near = match unproject(
            ops,
            optics,
            self.inverse_view_projection,
            Clip { x, y, z: scalar::ZERO, w: scalar::ONE },
        ) {
            Some(near) => near,
            None => {
                return None;
            },
        };
        let far = match unproject(
            ops,
            optics,
            self.inverse_view_projection,
            Clip { x, y, z: scalar::ONE, w: scalar::ONE },
        ) {
            Some(far) => far,
            None => {
                return None;
            },
        };
        let direction = arithmetic::unit(ops, arithmetic::minus(ops, far, near));
        let nowhere = Point { x: scalar::ZERO, y: scalar::ZERO, z: scalar::ZERO };
        if direction.is_same(&nowhere) || !direction.is_finite() {
            return None;
        }
        Some(Ray { origin: self.eye, direction })
    }

    #[must_use]
    pub fn eye(self) -> (result: Point)
        ensures
            result == self.eye,
    {
        self.eye
    }

    #[must_use]
    pub fn right(self) -> (result: Point)
        ensures
            result == self.right,
    {
        self.right
    }

    #[must_use]
    pub fn up(self) -> (result: Point)
        ensures
            result == self.up,
    {
        self.up
    }

    #[must_use]
    pub fn view_projection(self) -> (result: Matrix)
        ensures
            result == self.view_projection,
    {
        self.view_projection
    }

    #[must_use]
    pub fn world_units_per_point(self) -> (result: u32)
        ensures
            result == self.world_units_per_point,
    {
        self.world_units_per_point
    }

    #[must_use]
    pub fn distance(self) -> (result: u32)
        ensures
            result == self.distance,
    {
        self.distance
    }
}

/// Which of the two cameras is looked through.
#[derive(Clone, Copy, Debug, PartialEq, Eq, Structural)]
pub enum CameraMode {
    Orbit,
    Fly,
}

/// Whether flight forward stays level, or goes where the camera looks.
#[derive(Clone, Copy, Debug, PartialEq, Eq, Structural)]
pub enum FlyMovementMode {
    Level,
    Free,
}

/// How far to fly along each axis, from -1 to 1.
#[derive(Clone, Copy, Debug, Default, PartialEq, Eq, Structural)]
pub struct FlyMovement {
    pub forward: u32,
    pub right: u32,
    pub up: u32,
}

/// The direction of a heading and an inclination.
pub open spec fn spec_heading<O: Arithmetic, T: Optics>(
    ops: &O,
    optics: &T,
    yaw: u32,
    pitch: u32,
) -> Point {
    let level = optics.spec_cosine(pitch);
    Point {
        x: ops.spec_product(optics.spec_cosine(yaw), level),
        y: ops.spec_product(optics.spec_sine(yaw), level),
        z: optics.spec_sine(pitch),
    }
}

pub fn heading<O: Arithmetic, T: Optics>(ops: &O, optics: &T, yaw: u32, pitch: u32) -> (result:
    Point)
    requires
        ops.total(),
        optics.total(),
    ensures
        result == spec_heading(ops, optics, yaw, pitch),
{
    let level = optics.cosine(pitch);
    Point {
        x: ops.product(optics.cosine(yaw), level),
        y: ops.product(optics.sine(yaw), level),
        z: optics.sine(pitch),
    }
}

/// The direction upright.
pub open spec fn upright() -> Point {
    Point { x: scalar::ZERO, y: scalar::ZERO, z: scalar::ONE }
}

/// The direction to the right of one that is looked along.
pub open spec fn right_of<O: Arithmetic>(ops: &O, forward: Point) -> Point {
    arithmetic::spec_unit(ops, arithmetic::spec_cross(ops, forward, upright()))
}

fn to_the_right<O: Arithmetic>(ops: &O, forward: Point) -> (result: Point)
    requires
        ops.total(),
    ensures
        result == right_of(ops, forward),
{
    let up = Point { x: scalar::ZERO, y: scalar::ZERO, z: scalar::ONE };
    arithmetic::unit(ops, arithmetic::cross(ops, forward, up))
}

/// The direction above one that is looked along, on the screen.
pub open spec fn up_of<O: Arithmetic>(ops: &O, forward: Point) -> Point {
    arithmetic::spec_unit(ops, arithmetic::spec_cross(ops, right_of(ops, forward), forward))
}

/// The camera that goes round a target. With no yaw its eye lies on the positive X axis.
#[derive(Clone, Copy, Debug, PartialEq, Eq, Structural)]
pub struct OrbitCamera {
    pub target: Point,
    pub yaw: u32,
    pub pitch: u32,
    pub distance: u32,
}

impl OrbitCamera {
    pub open spec fn spec_eye<O: Arithmetic, T: Optics>(self, ops: &O, optics: &T) -> Point {
        arithmetic::spec_plus(
            ops,
            self.target,
            arithmetic::spec_times(
                ops,
                spec_heading(ops, optics, self.yaw, self.pitch),
                self.distance,
            ),
        )
    }

    pub fn eye<O: Arithmetic, T: Optics>(&self, ops: &O, optics: &T) -> (result: Point)
        requires
            ops.total(),
            optics.total(),
        ensures
            result == self.spec_eye(ops, optics),
    {
        let offset = heading(ops, optics, self.yaw, self.pitch);
        arithmetic::plus(ops, self.target, arithmetic::times(ops, offset, self.distance))
    }

    pub open spec fn spec_forward<O: Arithmetic, T: Optics>(self, ops: &O, optics: &T) -> Point {
        arithmetic::spec_unit(
            ops,
            arithmetic::spec_minus(ops, self.target, self.spec_eye(ops, optics)),
        )
    }

    pub fn forward<O: Arithmetic, T: Optics>(&self, ops: &O, optics: &T) -> (result: Point)
        requires
            ops.total(),
            optics.total(),
        ensures
            result == self.spec_forward(ops, optics),
    {
        let eye = self.eye(ops, optics);
        arithmetic::unit(ops, arithmetic::minus(ops, self.target, eye))
    }

    pub fn right<O: Arithmetic, T: Optics>(&self, ops: &O, optics: &T) -> (result: Point)
        requires
            ops.total(),
            optics.total(),
        ensures
            result == right_of(ops, self.spec_forward(ops, optics)),
    {
        to_the_right(ops, self.forward(ops, optics))
    }

    pub fn up<O: Arithmetic, T: Optics>(&self, ops: &O, optics: &T) -> (result: Point)
        requires
            ops.total(),
            optics.total(),
        ensures
            result == up_of(ops, self.spec_forward(ops, optics)),
    {
        let forward = self.forward(ops, optics);
        arithmetic::unit(ops, arithmetic::cross(ops, to_the_right(ops, forward), forward))
    }
}

/// The camera that flies through everything.
#[derive(Clone, Copy, Debug, PartialEq, Eq, Structural)]
pub struct FlyCamera {
    pub position: Point,
    pub yaw: u32,
    pub pitch: u32,
    pub speed_radii_per_second: u32,
}

impl FlyCamera {
    /// The flight that begins where the other camera is, and looks where it looks.
    pub open spec fn entering<O: Arithmetic, T: Optics>(
        ops: &O,
        optics: &T,
        orbit: OrbitCamera,
    ) -> FlyCamera {
        let direction = orbit.spec_forward(ops, optics);
        FlyCamera {
            position: orbit.spec_eye(ops, optics),
            yaw: optics.spec_remainder(optics.spec_arc_tangent(direction.y, direction.x), TAU),
            pitch: optics.spec_arc_sine(scalar::clamped(direction.z, MINUS_ONE, scalar::ONE)),
            speed_radii_per_second: INITIAL_FLY_SPEED,
        }
    }

    pub fn from_orbit<O: Arithmetic, T: Optics>(
        orbit: &OrbitCamera,
        ops: &O,
        optics: &T,
    ) -> (result: FlyCamera)
        requires
            ops.total(),
            optics.total(),
        ensures
            result == FlyCamera::entering(ops, optics, *orbit),
    {
        let direction = orbit.forward(ops, optics);
        FlyCamera {
            position: orbit.eye(ops, optics),
            yaw: optics.remainder(optics.arc_tangent(direction.y, direction.x), TAU),
            pitch: optics.arc_sine(scalar::clamp(direction.z, MINUS_ONE, scalar::ONE)),
            speed_radii_per_second: INITIAL_FLY_SPEED,
        }
    }

    pub open spec fn spec_forward<O: Arithmetic, T: Optics>(self, ops: &O, optics: &T) -> Point {
        arithmetic::spec_unit(ops, spec_heading(ops, optics, self.yaw, self.pitch))
    }

    pub fn forward<O: Arithmetic, T: Optics>(&self, ops: &O, optics: &T) -> (result: Point)
        requires
            ops.total(),
            optics.total(),
        ensures
            result == self.spec_forward(ops, optics),
    {
        arithmetic::unit(ops, heading(ops, optics, self.yaw, self.pitch))
    }

    pub fn right<O: Arithmetic, T: Optics>(&self, ops: &O, optics: &T) -> (result: Point)
        requires
            ops.total(),
            optics.total(),
        ensures
            result == right_of(ops, self.spec_forward(ops, optics)),
    {
        to_the_right(ops, self.forward(ops, optics))
    }
}

/// The two cameras, each with a viewpoint of its own, and the mesh that they look at.
#[derive(Clone, Copy, Debug, PartialEq, Eq, Structural)]
pub struct Camera {
    pub mode: CameraMode,
    pub fly_movement_mode: FlyMovementMode,
    pub orbit: OrbitCamera,
    pub fly: FlyCamera,
    pub fly_entered: bool,
    pub fov_y_radians: u32,
    pub bounds_minimum: Point,
    pub bounds_maximum: Point,
    pub scene_radius: u32,
}

/// The camera that goes round the origin at first.
pub open spec fn initial_orbit() -> OrbitCamera {
    OrbitCamera {
        target: arithmetic::origin(),
        yaw: INITIAL_YAW,
        pitch: INITIAL_PITCH,
        distance: scalar::THREE,
    }
}

/// What an axis of a movement counts for.
pub open spec fn spec_finite_axis(value: u32) -> u32 {
    if scalar::finite(value) {
        scalar::clamped(value, MINUS_ONE, scalar::ONE)
    } else {
        scalar::ZERO
    }
}

fn finite_axis(value: u32) -> (result: u32)
    ensures
        result == spec_finite_axis(value),
{
    if scalar::is_finite(value) {
        scalar::clamp(value, MINUS_ONE, scalar::ONE)
    } else {
        scalar::ZERO
    }
}

/// The radius of a scene, which is never taken to be nothing.
pub open spec fn spec_radius(scene_radius: u32) -> u32 {
    scalar::greatest(scene_radius, SMALLEST_SCENE)
}

/// What is seen through a camera from an eye, along a direction, where both are sound.
pub open spec fn framed<O: Arithmetic, T: Optics>(
    ops: &O,
    optics: &T,
    viewport: ScreenRect,
    eye: Point,
    forward: Point,
    fov_y_radians: u32,
    near: u32,
    far: u32,
    reference_distance: u32,
) -> Option<CameraFrame> {
    let right = right_of(ops, forward);
    let up = up_of(ops, forward);
    let view_projection = optics.spec_view_projection(
        View {
            eye,
            target: arithmetic::spec_plus(ops, eye, forward),
            field_of_view: scalar::clamped(fov_y_radians, NARROWEST_VIEW, WIDEST_VIEW),
            aspect: scalar::greatest(
                ops.spec_quotient(viewport.spec_width(ops), viewport.spec_height(ops)),
                SMALLEST_SCENE,
            ),
            near,
            far,
        },
    );
    let inverse = optics.spec_inverse(view_projection);
    let distance = spec_radius(reference_distance);
    if !eye.finite() || forward.same(arithmetic::origin()) || !forward.finite() || !scalar::finite(
        near,
    ) || !scalar::finite(far) || scalar::le(near, scalar::ZERO) || scalar::le(far, near) {
        None
    } else if right.same(arithmetic::origin()) || up.same(arithmetic::origin())
        || !view_projection.finite() || !inverse.finite() {
        None
    } else {
        Some(
            CameraFrame {
                viewport,
                eye,
                right,
                up,
                view_projection,
                inverse_view_projection: inverse,
                world_units_per_point: ops.spec_quotient(
                    ops.spec_product(
                        ops.spec_product(scalar::TWO, distance),
                        optics.spec_tangent(ops.spec_product(fov_y_radians, scalar::HALF)),
                    ),
                    viewport.spec_height(ops),
                ),
                distance,
            },
        )
    }
}

fn build_frame<O: Arithmetic, T: Optics>(
    ops: &O,
    optics: &T,
    viewport: ScreenRect,
    eye: Point,
    forward: Point,
    fov_y_radians: u32,
    near: u32,
    far: u32,
    reference_distance: u32,
) -> (result: Option<CameraFrame>)
    requires
        ops.total(),
        optics.total(),
    ensures
        result == framed(
            ops,
            optics,
            viewport,
            eye,
            forward,
            fov_y_radians,
            near,
            far,
            reference_distance,
        ),
{
    let nowhere = Point { x: scalar::ZERO, y: scalar::ZERO, z: scalar::ZERO };
    if !eye.is_finite() || forward.is_same(&nowhere) || !forward.is_finite()
        || !scalar::is_finite(near) || !scalar::is_finite(far) || scalar::is_at_most(
        near,
        scalar::ZERO,
    ) || scalar::is_at_most(far, near) {
        return None;
    }
    let right = to_the_right(ops, forward);
    let up = arithmetic::unit(ops, arithmetic::cross(ops, right, forward));
    let view_projection = optics.view_projection(
        View {
            eye,
            target: arithmetic::plus(ops, eye, forward),
            field_of_view: scalar::clamp(fov_y_radians, NARROWEST_VIEW, WIDEST_VIEW),
            aspect: scalar::max(
                ops.quotient(viewport.width(ops), viewport.height(ops)),
                SMALLEST_SCENE,
            ),
            near,
            far,
        },
    );
    let inverse_view_projection = optics.inverse(view_projection);
    if right.is_same(&nowhere) || up.is_same(&nowhere) || !view_projection.is_finite()
        || !inverse_view_projection.is_finite() {
        return None;
    }
    let distance = scalar::max(reference_distance, SMALLEST_SCENE);
    let slope = optics.tangent(ops.product(fov_y_radians, scalar::HALF));
    let world_units_per_point = ops.quotient(
        ops.product(ops.product(scalar::TWO, distance), slope),
        viewport.height(ops),
    );
    Some(
        CameraFrame {
            viewport,
            eye,
            right,
            up,
            view_projection,
            inverse_view_projection,
            world_units_per_point,
            distance,
        },
    )
}

impl Camera {
    /// The cameras at first, round the origin.
    pub open spec fn initial<O: Arithmetic, T: Optics>(ops: &O, optics: &T) -> Camera {
        Camera {
            mode: CameraMode::Orbit,
            fly_movement_mode: FlyMovementMode::Level,
            orbit: initial_orbit(),
            fly: FlyCamera::entering(ops, optics, initial_orbit()),
            fly_entered: false,
            fov_y_radians: FIELD_OF_VIEW,
            bounds_minimum: Point {
                x: MINUS_CUBE_HALF,
                y: MINUS_CUBE_HALF,
                z: MINUS_CUBE_HALF,
            },
            bounds_maximum: Point { x: CUBE_HALF, y: CUBE_HALF, z: CUBE_HALF },
            scene_radius: scalar::ONE,
        }
    }

    pub fn new<O: Arithmetic, T: Optics>(ops: &O, optics: &T) -> (result: Camera)
        requires
            ops.total(),
            optics.total(),
        ensures
            result == Camera::initial(ops, optics),
    {
        let orbit = OrbitCamera {
            target: Point { x: scalar::ZERO, y: scalar::ZERO, z: scalar::ZERO },
            yaw: INITIAL_YAW,
            pitch: INITIAL_PITCH,
            distance: scalar::THREE,
        };
        Camera {
            mode: CameraMode::Orbit,
            fly_movement_mode: FlyMovementMode::Level,
            orbit,
            fly: FlyCamera::from_orbit(&orbit, ops, optics),
            fly_entered: false,
            fov_y_radians: FIELD_OF_VIEW,
            bounds_minimum: Point::splat(MINUS_CUBE_HALF),
            bounds_maximum: Point::splat(CUBE_HALF),
            scene_radius: scalar::ONE,
        }
    }

    #[must_use]
    pub fn mode(&self) -> (result: CameraMode)
        ensures
            result == self.mode,
    {
        self.mode
    }

    #[must_use]
    pub fn fly_movement_mode(&self) -> (result: FlyMovementMode)
        ensures
            result == self.fly_movement_mode,
    {
        self.fly_movement_mode
    }

    pub fn set_fly_movement_mode(&mut self, mode: FlyMovementMode)
        ensures
            *final(self) == (Camera { fly_movement_mode: mode, ..*old(self) }),
    {
        self.fly_movement_mode = mode;
    }

    /// The camera in a mode. The first flight begins where the orbit is.
    pub open spec fn with_mode<O: Arithmetic, T: Optics>(
        self,
        ops: &O,
        optics: &T,
        mode: CameraMode,
    ) -> Camera {
        if mode is Fly && !self.fly_entered {
            Camera {
                mode,
                fly: FlyCamera::entering(ops, optics, self.orbit),
                fly_entered: true,
                ..self
            }
        } else {
            Camera { mode, ..self }
        }
    }

    pub fn set_mode<O: Arithmetic, T: Optics>(&mut self, mode: CameraMode, ops: &O, optics: &T)
        requires
            ops.total(),
            optics.total(),
        ensures
            *final(self) == old(self).with_mode(ops, optics, mode),
    {
        if mode == CameraMode::Fly && !self.fly_entered {
            self.fly = FlyCamera::from_orbit(&self.orbit, ops, optics);
            self.fly_entered = true;
        }
        self.mode = mode;
    }

    /// The camera that frames a box, with both viewpoints put back and the orbit looked through.
    pub open spec fn fitted<O: Arithmetic, T: Optics>(
        self,
        ops: &O,
        optics: &T,
        min: Point,
        max: Point,
    ) -> Camera {
        let low = min.least(max);
        let high = min.greatest(max);
        let radius = scalar::greatest(
            ops.spec_product(
                arithmetic::spec_length(ops, arithmetic::spec_minus(ops, high, low)),
                scalar::HALF,
            ),
            SMALLEST_SCENE,
        );
        let orbit = OrbitCamera {
            target: arithmetic::spec_times(
                ops,
                arithmetic::spec_plus(ops, low, high),
                scalar::HALF,
            ),
            distance: ops.spec_product(
                ops.spec_quotient(
                    radius,
                    optics.spec_sine(ops.spec_product(self.fov_y_radians, scalar::HALF)),
                ),
                FRAME_MARGIN,
            ),
            ..self.orbit
        };
        if !min.finite() || !max.finite() {
            self
        } else {
            Camera {
                mode: CameraMode::Orbit,
                orbit,
                fly: FlyCamera::entering(ops, optics, orbit),
                fly_entered: false,
                bounds_minimum: low,
                bounds_maximum: high,
                scene_radius: radius,
                ..self
            }
        }
    }

    pub fn fit<O: Arithmetic, T: Optics>(&mut self, min: Point, max: Point, ops: &O, optics: &T)
        requires
            ops.total(),
            optics.total(),
        ensures
            *final(self) == old(self).fitted(ops, optics, min, max),
    {
        if !min.is_finite() || !max.is_finite() {
            return;
        }
        let low = min.min(&max);
        let high = min.max(&max);
        self.bounds_minimum = low;
        self.bounds_maximum = high;
        self.orbit.target = arithmetic::times(ops, arithmetic::plus(ops, low, high), scalar::HALF);
        self.scene_radius = scalar::max(
            ops.product(
                arithmetic::length(ops, arithmetic::minus(ops, high, low)),
                scalar::HALF,
            ),
            SMALLEST_SCENE,
        );
        // A bounding sphere does not depend on the shape of the viewport, and leaves room for the
        // brush at the edges of the mesh.
        let half_view = ops.product(self.fov_y_radians, scalar::HALF);
        self.orbit.distance = ops.product(
            ops.quotient(self.scene_radius, optics.sine(half_view)),
            FRAME_MARGIN,
        );
        self.fly = FlyCamera::from_orbit(&self.orbit, ops, optics);
        self.fly_entered = false;
        self.mode = CameraMode::Orbit;
    }

    /// The camera turned round its target by a movement of the pointer.
    pub open spec fn orbited<O: Arithmetic, T: Optics>(
        self,
        ops: &O,
        optics: &T,
        delta: ScreenPoint,
    ) -> Camera {
        if !scalar::finite(delta.x) || !scalar::finite(delta.y) {
            self
        } else {
            Camera {
                orbit: OrbitCamera {
                    yaw: optics.spec_remainder(
                        ops.spec_difference(
                            self.orbit.yaw,
                            ops.spec_product(delta.x, ORBIT_RADIANS_PER_POINT),
                        ),
                        TAU,
                    ),
                    pitch: scalar::clamped(
                        ops.spec_sum(
                            self.orbit.pitch,
                            ops.spec_product(delta.y, ORBIT_RADIANS_PER_POINT),
                        ),
                        STEEPEST_DOWN,
                        STEEPEST,
                    ),
                    ..self.orbit
                },
                ..self
            }
        }
    }

    pub fn orbit<O: Arithmetic, T: Optics>(
        &mut self,
        delta_points: ScreenPoint,
        ops: &O,
        optics: &T,
    )
        requires
            ops.total(),
            optics.total(),
        ensures
            *final(self) == old(self).orbited(ops, optics, delta_points),
    {
        if !scalar::is_finite(delta_points.x) || !scalar::is_finite(delta_points.y) {
            return;
        }
        self.orbit.yaw = optics.remainder(
            ops.difference(
                self.orbit.yaw,
                ops.product(delta_points.x, ORBIT_RADIANS_PER_POINT),
            ),
            TAU,
        );
        self.orbit.pitch = scalar::clamp(
            ops.sum(self.orbit.pitch, ops.product(delta_points.y, ORBIT_RADIANS_PER_POINT)),
            STEEPEST_DOWN,
            STEEPEST,
        );
    }

    /// How much of the world a point of the screen covers at the target of the orbit.
    pub open spec fn spec_orbit_world_units_per_point<O: Arithmetic, T: Optics>(
        self,
        ops: &O,
        optics: &T,
        viewport_height: u32,
    ) -> u32 {
        if scalar::le(viewport_height, scalar::ZERO) {
            scalar::ZERO
        } else {
            ops.spec_quotient(
                ops.spec_product(
                    ops.spec_product(scalar::TWO, self.orbit.distance),
                    optics.spec_tangent(ops.spec_product(self.fov_y_radians, scalar::HALF)),
                ),
                viewport_height,
            )
        }
    }

    pub fn orbit_world_units_per_point<O: Arithmetic, T: Optics>(
        &self,
        viewport_height_points: u32,
        ops: &O,
        optics: &T,
    ) -> (result: u32)
        requires
            ops.total(),
            optics.total(),
        ensures
            result == self.spec_orbit_world_units_per_point(ops, optics, viewport_height_points),
    {
        if scalar::is_at_most(viewport_height_points, scalar::ZERO) {
            return scalar::ZERO;
        }
        let slope = optics.tangent(ops.product(self.fov_y_radians, scalar::HALF));
        ops.quotient(
            ops.product(ops.product(scalar::TWO, self.orbit.distance), slope),
            viewport_height_points,
        )
    }

    /// The camera with its target moved so that the mesh goes along with the pointer.
    pub open spec fn panned<O: Arithmetic, T: Optics>(
        self,
        ops: &O,
        optics: &T,
        delta: ScreenPoint,
        viewport_height: u32,
    ) -> Camera {
        if !scalar::finite(delta.x) || !scalar::finite(delta.y) || !scalar::finite(
            viewport_height,
        ) {
            self
        } else {
            let scale = self.spec_orbit_world_units_per_point(ops, optics, viewport_height);
            let right = right_of(ops, self.orbit.spec_forward(ops, optics));
            let sideways = OrbitCamera {
                target: arithmetic::spec_minus(
                    ops,
                    self.orbit.target,
                    arithmetic::spec_times(
                        ops,
                        arithmetic::spec_times(ops, right, delta.x),
                        scale,
                    ),
                ),
                ..self.orbit
            };
            let up = up_of(ops, sideways.spec_forward(ops, optics));
            Camera {
                orbit: OrbitCamera {
                    target: arithmetic::spec_plus(
                        ops,
                        sideways.target,
                        arithmetic::spec_times(ops, arithmetic::spec_times(ops, up, delta.y), scale),
                    ),
                    ..self.orbit
                },
                ..self
            }
        }
    }

    pub fn pan<O: Arithmetic, T: Optics>(
        &mut self,
        delta_points: ScreenPoint,
        viewport_height_points: u32,
        ops: &O,
        optics: &T,
    )
        requires
            ops.total(),
            optics.total(),
        ensures
            *final(self) == old(self).panned(ops, optics, delta_points, viewport_height_points),
    {
        if !scalar::is_finite(delta_points.x) || !scalar::is_finite(delta_points.y)
            || !scalar::is_finite(viewport_height_points) {
            return;
        }
        let scale = self.orbit_world_units_per_point(viewport_height_points, ops, optics);
        let right = self.orbit.right(ops, optics);
        let sideways = arithmetic::times(ops, arithmetic::times(ops, right, delta_points.x), scale);
        self.orbit.target = arithmetic::minus(ops, self.orbit.target, sideways);
        let up = self.orbit.up(ops, optics);
        let upward = arithmetic::times(ops, arithmetic::times(ops, up, delta_points.y), scale);
        self.orbit.target = arithmetic::plus(ops, self.orbit.target, upward);
    }

    /// The camera brought nearer to its target where the scroll is positive.
    pub open spec fn zoomed<O: Arithmetic, T: Optics>(
        self,
        ops: &O,
        optics: &T,
        scroll: u32,
    ) -> Camera {
        if !scalar::finite(scroll) {
            self
        } else {
            let radius = spec_radius(self.scene_radius);
            let distance = ops.spec_product(
                self.orbit.distance,
                optics.spec_exponential(
                    ops.spec_product(scalar::negated(scroll), ZOOM_EXPONENT_PER_POINT),
                ),
            );
            Camera {
                orbit: OrbitCamera {
                    distance: scalar::clamped(
                        distance,
                        ops.spec_product(radius, CLOSEST_ZOOM),
                        ops.spec_product(radius, FARTHEST_ZOOM),
                    ),
                    ..self.orbit
                },
                ..self
            }
        }
    }

    pub fn zoom<O: Arithmetic, T: Optics>(&mut self, scroll_delta: u32, ops: &O, optics: &T)
        requires
            ops.total(),
            optics.total(),
        ensures
            *final(self) == old(self).zoomed(ops, optics, scroll_delta),
    {
        if !scalar::is_finite(scroll_delta) {
            return;
        }
        let factor = optics.exponential(
            ops.product(scalar::negate(scroll_delta), ZOOM_EXPONENT_PER_POINT),
        );
        let distance = ops.product(self.orbit.distance, factor);
        let radius = scalar::max(self.scene_radius, SMALLEST_SCENE);
        self.orbit.distance = scalar::clamp(
            distance,
            ops.product(radius, CLOSEST_ZOOM),
            ops.product(radius, FARTHEST_ZOOM),
        );
    }

    /// The flight turned by a movement of the mouse.
    pub open spec fn looked<O: Arithmetic, T: Optics>(
        self,
        ops: &O,
        optics: &T,
        delta: ScreenPoint,
    ) -> Camera {
        if !scalar::finite(delta.x) || !scalar::finite(delta.y) {
            self
        } else {
            Camera {
                fly: FlyCamera {
                    yaw: optics.spec_remainder(
                        ops.spec_difference(
                            self.fly.yaw,
                            ops.spec_product(delta.x, FLY_RADIANS_PER_POINT),
                        ),
                        TAU,
                    ),
                    pitch: scalar::clamped(
                        ops.spec_difference(
                            self.fly.pitch,
                            ops.spec_product(delta.y, FLY_RADIANS_PER_POINT),
                        ),
                        STEEPEST_DOWN,
                        STEEPEST,
                    ),
                    ..self.fly
                },
                ..self
            }
        }
    }

    pub fn fly_look<O: Arithmetic, T: Optics>(
        &mut self,
        delta_points: ScreenPoint,
        ops: &O,
        optics: &T,
    )
        requires
            ops.total(),
            optics.total(),
        ensures
            *final(self) == old(self).looked(ops, optics, delta_points),
    {
        if !scalar::is_finite(delta_points.x) || !scalar::is_finite(delta_points.y) {
            return;
        }
        self.fly.yaw = optics.remainder(
            ops.difference(self.fly.yaw, ops.product(delta_points.x, FLY_RADIANS_PER_POINT)),
            TAU,
        );
        self.fly.pitch = scalar::clamp(
            ops.difference(self.fly.pitch, ops.product(delta_points.y, FLY_RADIANS_PER_POINT)),
            STEEPEST_DOWN,
            STEEPEST,
        );
    }

    /// The direction of flight before it is brought to unit length. In level flight the height
    /// changes by the upward axis alone.
    pub open spec fn course<O: Arithmetic, T: Optics>(
        self,
        ops: &O,
        optics: &T,
        movement: FlyMovement,
    ) -> Point {
        let forward = spec_finite_axis(movement.forward);
        let right = spec_finite_axis(movement.right);
        let up = spec_finite_axis(movement.up);
        match self.fly_movement_mode {
            FlyMovementMode::Level => {
                let (x, y) = (optics.spec_cosine(self.fly.yaw), optics.spec_sine(self.fly.yaw));
                Point {
                    x: ops.spec_sum(ops.spec_product(x, forward), ops.spec_product(y, right)),
                    y: ops.spec_difference(
                        ops.spec_product(y, forward),
                        ops.spec_product(x, right),
                    ),
                    z: up,
                }
            },
            FlyMovementMode::Free => {
                let look = self.fly.spec_forward(ops, optics);
                arithmetic::spec_plus(
                    ops,
                    arithmetic::spec_plus(
                        ops,
                        arithmetic::spec_times(ops, look, forward),
                        arithmetic::spec_times(ops, right_of(ops, look), right),
                    ),
                    arithmetic::spec_times(ops, upright(), up),
                )
            },
        }
    }

    /// How far one flies in a second at a speed of one.
    pub open spec fn pace<O: Arithmetic, T: Optics>(
        self,
        ops: &O,
        optics: &T,
        movement: FlyMovement,
    ) -> Point {
        arithmetic::spec_times(
            ops,
            arithmetic::spec_unit(ops, self.course(ops, optics, movement)),
            spec_radius(self.scene_radius),
        )
    }

    /// How far one flies in some time, no longer than a tenth of a second.
    pub open spec fn stride<O: Arithmetic, T: Optics>(
        self,
        ops: &O,
        optics: &T,
        movement: FlyMovement,
        delta_seconds: u32,
        boosted: bool,
    ) -> Point {
        let speed = if boosted {
            ops.spec_product(self.fly.speed_radii_per_second, FLY_BOOST)
        } else {
            self.fly.speed_radii_per_second
        };
        arithmetic::spec_times(
            ops,
            arithmetic::spec_times(ops, self.pace(ops, optics, movement), speed),
            scalar::clamped(delta_seconds, scalar::ZERO, MAX_FLY_DELTA_SECONDS),
        )
    }

    /// The flight moved on for some time, no longer than a tenth of a second.
    pub open spec fn flown<O: Arithmetic, T: Optics>(
        self,
        ops: &O,
        optics: &T,
        movement: FlyMovement,
        delta_seconds: u32,
        boosted: bool,
    ) -> Camera {
        let position = arithmetic::spec_plus(
            ops,
            self.fly.position,
            self.stride(ops, optics, movement, delta_seconds, boosted),
        );
        if !scalar::finite(delta_seconds) || !position.finite() {
            self
        } else {
            Camera { fly: FlyCamera { position, ..self.fly }, ..self }
        }
    }

    pub fn fly_move<O: Arithmetic, T: Optics>(
        &mut self,
        movement: FlyMovement,
        delta_seconds: u32,
        boosted: bool,
        ops: &O,
        optics: &T,
    )
        requires
            ops.total(),
            optics.total(),
        ensures
            *final(self) == old(self).flown(ops, optics, movement, delta_seconds, boosted),
    {
        if !scalar::is_finite(delta_seconds) {
            return;
        }
        let seconds = scalar::clamp(delta_seconds, scalar::ZERO, MAX_FLY_DELTA_SECONDS);
        let forward = finite_axis(movement.forward);
        let right = finite_axis(movement.right);
        let up = finite_axis(movement.up);
        let course = match self.fly_movement_mode {
            FlyMovementMode::Level => {
                let x = optics.cosine(self.fly.yaw);
                let y = optics.sine(self.fly.yaw);
                Point {
                    x: ops.sum(ops.product(x, forward), ops.product(y, right)),
                    y: ops.difference(ops.product(y, forward), ops.product(x, right)),
                    z: up,
                }
            },
            FlyMovementMode::Free => {
                let look = self.fly.forward(ops, optics);
                let sideways = self.fly.right(ops, optics);
                let upward = Point { x: scalar::ZERO, y: scalar::ZERO, z: scalar::ONE };
                arithmetic::plus(
                    ops,
                    arithmetic::plus(
                        ops,
                        arithmetic::times(ops, look, forward),
                        arithmetic::times(ops, sideways, right),
                    ),
                    arithmetic::times(ops, upward, up),
                )
            },
        };
        let direction = arithmetic::unit(ops, course);
        let speed = if boosted {
            ops.product(self.fly.speed_radii_per_second, FLY_BOOST)
        } else {
            self.fly.speed_radii_per_second
        };
        let radius = scalar::max(self.scene_radius, SMALLEST_SCENE);
        let displacement = arithmetic::times(
            ops,
            arithmetic::times(ops, arithmetic::times(ops, direction, radius), speed),
            seconds,
        );
        let position = arithmetic::plus(ops, self.fly.position, displacement);
        if position.is_finite() {
            self.fly.position = position;
        }
    }

    /// The flight made faster or slower by the wheel.
    pub open spec fn sped<O: Arithmetic, T: Optics>(
        self,
        ops: &O,
        optics: &T,
        wheel_points: u32,
    ) -> Camera {
        if !scalar::finite(wheel_points) {
            self
        } else {
            let exponent = ops.spec_product(
                scalar::clamped(wheel_points, MIN_FLY_WHEEL_POINTS, MAX_FLY_WHEEL_POINTS),
                FLY_WHEEL_EXPONENT_PER_POINT,
            );
            Camera {
                fly: FlyCamera {
                    speed_radii_per_second: scalar::clamped(
                        ops.spec_product(
                            self.fly.speed_radii_per_second,
                            optics.spec_exponential(exponent),
                        ),
                        MIN_FLY_SPEED,
                        MAX_FLY_SPEED,
                    ),
                    ..self.fly
                },
                ..self
            }
        }
    }

    pub fn adjust_fly_speed<O: Arithmetic, T: Optics>(
        &mut self,
        wheel_points: u32,
        ops: &O,
        optics: &T,
    )
        requires
            ops.total(),
            optics.total(),
        ensures
            *final(self) == old(self).sped(ops, optics, wheel_points),
    {
        if !scalar::is_finite(wheel_points) {
            return;
        }
        let exponent = ops.product(
            scalar::clamp(wheel_points, MIN_FLY_WHEEL_POINTS, MAX_FLY_WHEEL_POINTS),
            FLY_WHEEL_EXPONENT_PER_POINT,
        );
        self.fly.speed_radii_per_second = scalar::clamp(
            ops.product(self.fly.speed_radii_per_second, optics.exponential(exponent)),
            MIN_FLY_SPEED,
            MAX_FLY_SPEED,
        );
    }

    #[must_use]
    pub fn fly_speed(&self) -> (result: u32)
        ensures
            result == self.fly.speed_radii_per_second,
    {
        self.fly.speed_radii_per_second
    }

    /// From where to where the orbit shows the world.
    pub open spec fn spec_orbit_near_far<O: Arithmetic>(self, ops: &O) -> (u32, u32) {
        let radius = spec_radius(self.scene_radius);
        let near = scalar::greatest(
            scalar::greatest(
                ops.spec_difference(
                    self.orbit.distance,
                    ops.spec_product(radius, ORBIT_NEAR_RADII),
                ),
                ops.spec_product(radius, THOUSANDTH),
            ),
            NEAREST,
        );
        let far = scalar::greatest(
            ops.spec_sum(self.orbit.distance, ops.spec_product(radius, FAR_RADII)),
            ops.spec_product(near, scalar::TWO),
        );
        (near, far)
    }

    fn orbit_near_far<O: Arithmetic>(&self, ops: &O) -> (result: (u32, u32))
        requires
            ops.total(),
        ensures
            result == self.spec_orbit_near_far(ops),
    {
        let radius = scalar::max(self.scene_radius, SMALLEST_SCENE);
        let near = scalar::max(
            scalar::max(
                ops.difference(self.orbit.distance, ops.product(radius, ORBIT_NEAR_RADII)),
                ops.product(radius, THOUSANDTH),
            ),
            NEAREST,
        );
        let far = scalar::max(
            ops.sum(self.orbit.distance, ops.product(radius, FAR_RADII)),
            ops.product(near, scalar::TWO),
        );
        (near, far)
    }

    /// From where to where the flight shows the world.
    pub open spec fn spec_fly_near_far<O: Arithmetic>(self, ops: &O) -> (u32, u32) {
        let radius = spec_radius(self.scene_radius);
        let center = arithmetic::spec_times(
            ops,
            arithmetic::spec_plus(ops, self.bounds_minimum, self.bounds_maximum),
            scalar::HALF,
        );
        let measured = arithmetic::spec_distance(ops, self.fly.position, center);
        let distance = if scalar::finite(measured) {
            measured
        } else {
            radius
        };
        let near = scalar::greatest(
            scalar::greatest(
                ops.spec_difference(distance, ops.spec_product(radius, FLY_NEAR_RADII)),
                ops.spec_product(radius, SMALLEST_SCENE),
            ),
            NEAREST,
        );
        let far = scalar::greatest(
            scalar::greatest(
                ops.spec_sum(distance, ops.spec_product(radius, FAR_RADII)),
                ops.spec_product(radius, FAR_RADII),
            ),
            ops.spec_product(near, scalar::TWO),
        );
        (near, far)
    }

    fn fly_near_far<O: Arithmetic>(&self, ops: &O) -> (result: (u32, u32))
        requires
            ops.total(),
        ensures
            result == self.spec_fly_near_far(ops),
    {
        let radius = scalar::max(self.scene_radius, SMALLEST_SCENE);
        let center = arithmetic::times(
            ops,
            arithmetic::plus(ops, self.bounds_minimum, self.bounds_maximum),
            scalar::HALF,
        );
        let measured = arithmetic::distance(ops, self.fly.position, center);
        let distance = if scalar::is_finite(measured) {
            measured
        } else {
            radius
        };
        let near = scalar::max(
            scalar::max(
                ops.difference(distance, ops.product(radius, FLY_NEAR_RADII)),
                ops.product(radius, SMALLEST_SCENE),
            ),
            NEAREST,
        );
        let far = scalar::max(
            scalar::max(
                ops.sum(distance, ops.product(radius, FAR_RADII)),
                ops.product(radius, FAR_RADII),
            ),
            ops.product(near, scalar::TWO),
        );
        (near, far)
    }

    /// What is seen in a viewport through the camera that is looked through.
    pub open spec fn spec_frame<O: Arithmetic, T: Optics>(
        self,
        ops: &O,
        optics: &T,
        viewport: ScreenRect,
    ) -> Option<CameraFrame> {
        let width = viewport.spec_width(ops);
        let height = viewport.spec_height(ops);
        if scalar::le(width, scalar::ZERO) || scalar::le(height, scalar::ZERO) || !scalar::finite(
            width,
        ) || !scalar::finite(height) {
            None
        } else {
            match self.mode {
                CameraMode::Orbit => framed(
                    ops,
                    optics,
                    viewport,
                    self.orbit.spec_eye(ops, optics),
                    self.orbit.spec_forward(ops, optics),
                    self.fov_y_radians,
                    self.spec_orbit_near_far(ops).0,
                    self.spec_orbit_near_far(ops).1,
                    self.orbit.distance,
                ),
                CameraMode::Fly => framed(
                    ops,
                    optics,
                    viewport,
                    self.fly.position,
                    self.fly.spec_forward(ops, optics),
                    self.fov_y_radians,
                    self.spec_fly_near_far(ops).0,
                    self.spec_fly_near_far(ops).1,
                    self.scene_radius,
                ),
            }
        }
    }

    #[must_use]
    pub fn frame<O: Arithmetic, T: Optics>(&self, viewport: ScreenRect, ops: &O, optics: &T)
     -> (result: Option<CameraFrame>)
        requires
            ops.total(),
            optics.total(),
        ensures
            result == self.spec_frame(ops, optics, viewport),
    {
        let width = viewport.width(ops);
        let height = viewport.height(ops);
        if scalar::is_at_most(width, scalar::ZERO) || scalar::is_at_most(height, scalar::ZERO)
            || !scalar::is_finite(width) || !scalar::is_finite(height) {
            return None;
        }
        match self.mode {
            CameraMode::Orbit => {
                let (near, far) = self.orbit_near_far(ops);
                build_frame(
                    ops,
                    optics,
                    viewport,
                    self.orbit.eye(ops, optics),
                    self.orbit.forward(ops, optics),
                    self.fov_y_radians,
                    near,
                    far,
                    self.orbit.distance,
                )
            },
            CameraMode::Fly => {
                let (near, far) = self.fly_near_far(ops);
                build_frame(
                    ops,
                    optics,
                    viewport,
                    self.fly.position,
                    self.fly.forward(ops, optics),
                    self.fov_y_radians,
                    near,
                    far,
                    self.scene_radius,
                )
            },
        }
    }
}

/// What is done to one camera leaves the other as it is.
pub proof fn viewpoints_are_independent<O: Arithmetic, T: Optics>(
    ops: &O,
    optics: &T,
    camera: Camera,
    delta: ScreenPoint,
    height: u32,
    scroll: u32,
    movement: FlyMovement,
    seconds: u32,
    boosted: bool,
)
    ensures
        camera.orbited(ops, optics, delta).fly == camera.fly,
        camera.panned(ops, optics, delta, height).fly == camera.fly,
        camera.zoomed(ops, optics, scroll).fly == camera.fly,
        camera.looked(ops, optics, delta).orbit == camera.orbit,
        camera.flown(ops, optics, movement, seconds, boosted).orbit == camera.orbit,
        camera.sped(ops, optics, scroll).orbit == camera.orbit,
{
}

/// Going back and forth between the cameras keeps both viewpoints, once the flight has begun.
pub proof fn switching_keeps_the_viewpoints<O: Arithmetic, T: Optics>(
    ops: &O,
    optics: &T,
    camera: Camera,
)
    requires
        camera.fly_entered,
    ensures
        camera.with_mode(ops, optics, CameraMode::Orbit).orbit == camera.orbit,
        camera.with_mode(ops, optics, CameraMode::Orbit).fly == camera.fly,
        camera.with_mode(ops, optics, CameraMode::Orbit).with_mode(
            ops,
            optics,
            CameraMode::Fly,
        ) == (Camera { mode: CameraMode::Fly, ..camera }),
{
}

/// The first flight begins where the orbit is, and flies at the initial speed.
pub proof fn first_flight_begins_at_the_orbit<O: Arithmetic, T: Optics>(
    ops: &O,
    optics: &T,
    camera: Camera,
)
    requires
        !camera.fly_entered,
    ensures
        camera.with_mode(ops, optics, CameraMode::Fly).fly.position == camera.orbit.spec_eye(
            ops,
            optics,
        ),
        camera.with_mode(ops, optics, CameraMode::Fly).fly.speed_radii_per_second
            == INITIAL_FLY_SPEED,
        camera.with_mode(ops, optics, CameraMode::Fly).orbit == camera.orbit,
{
}

/// Framing a box goes back to the orbit, and the next flight begins from there, whatever was flown
/// before.
pub proof fn framing_puts_both_viewpoints_back<O: Arithmetic, T: Optics>(
    ops: &O,
    optics: &T,
    camera: Camera,
    min: Point,
    max: Point,
)
    requires
        min.finite(),
        max.finite(),
    ensures
        camera.fitted(ops, optics, min, max).mode is Orbit,
        !camera.fitted(ops, optics, min, max).fly_entered,
        camera.fitted(ops, optics, min, max).with_mode(ops, optics, CameraMode::Fly).fly
            == FlyCamera::entering(ops, optics, camera.fitted(ops, optics, min, max).orbit),
{
}

/// What is not a finite number moves no camera.
pub proof fn what_is_not_finite_moves_nothing<O: Arithmetic, T: Optics>(
    ops: &O,
    optics: &T,
    camera: Camera,
    delta: ScreenPoint,
    height: u32,
    value: u32,
    movement: FlyMovement,
    boosted: bool,
)
    requires
        !scalar::finite(value),
        !scalar::finite(delta.x) || !scalar::finite(delta.y),
    ensures
        camera.orbited(ops, optics, delta) == camera,
        camera.panned(ops, optics, delta, height) == camera,
        camera.zoomed(ops, optics, value) == camera,
        camera.looked(ops, optics, delta) == camera,
        camera.flown(ops, optics, movement, value, boosted) == camera,
        camera.sped(ops, optics, value) == camera,
        spec_finite_axis(value) == scalar::ZERO,
{
}

/// Neither camera looks past a pole, unless an angle is no longer a number.
pub proof fn cameras_stay_between_the_poles<O: Arithmetic, T: Optics>(
    ops: &O,
    optics: &T,
    camera: Camera,
    delta: ScreenPoint,
)
    requires
        scalar::finite(delta.x),
        scalar::finite(delta.y),
    ensures
        ({
            let pitch = camera.orbited(ops, optics, delta).orbit.pitch;
            scalar::nan(pitch) || (scalar::le(STEEPEST_DOWN, pitch) && scalar::le(pitch, STEEPEST))
        }),
        ({
            let pitch = camera.looked(ops, optics, delta).fly.pitch;
            scalar::nan(pitch) || (scalar::le(STEEPEST_DOWN, pitch) && scalar::le(pitch, STEEPEST))
        }),
{
}

/// The speed of flight stays within its bounds, unless it is no longer a number.
pub proof fn flight_stays_within_its_speeds<O: Arithmetic, T: Optics>(
    ops: &O,
    optics: &T,
    camera: Camera,
    wheel_points: u32,
)
    requires
        scalar::finite(wheel_points),
    ensures
        ({
            let speed = camera.sped(ops, optics, wheel_points).fly.speed_radii_per_second;
            scalar::nan(speed) || (scalar::le(MIN_FLY_SPEED, speed) && scalar::le(
                speed,
                MAX_FLY_SPEED,
            ))
        }),
{
}

/// In level flight neither the look's inclination nor what is flown forward and sideways changes
/// how much of the course goes up.
pub proof fn level_flight_keeps_its_height<O: Arithmetic, T: Optics>(
    ops: &O,
    optics: &T,
    camera: Camera,
    movement: FlyMovement,
)
    requires
        camera.fly_movement_mode is Level,
    ensures
        camera.course(ops, optics, movement).z == spec_finite_axis(movement.up),
{
}

/// Time beyond a tenth of a second does not count for the flight.
pub proof fn long_frames_fly_no_farther<O: Arithmetic, T: Optics>(
    ops: &O,
    optics: &T,
    camera: Camera,
    movement: FlyMovement,
    seconds: u32,
    boosted: bool,
)
    requires
        scalar::finite(seconds),
        scalar::le(MAX_FLY_DELTA_SECONDS, seconds),
    ensures
        camera.flown(ops, optics, movement, seconds, boosted) == camera.flown(
            ops,
            optics,
            movement,
            MAX_FLY_DELTA_SECONDS,
            boosted,
        ),
{
}

/// A boosted flight takes one where a flight at four times the speed does, and the speed itself
/// stays as it was.
pub proof fn a_boost_is_a_faster_flight<O: Arithmetic, T: Optics>(
    ops: &O,
    optics: &T,
    camera: Camera,
    movement: FlyMovement,
    seconds: u32,
)
    ensures
        ({
            let faster = Camera {
                fly: FlyCamera {
                    speed_radii_per_second: ops.spec_product(
                        camera.fly.speed_radii_per_second,
                        FLY_BOOST,
                    ),
                    ..camera.fly
                },
                ..camera
            };
            let ahead = faster.flown(ops, optics, movement, seconds, false);
            camera.flown(ops, optics, movement, seconds, true) == (Camera {
                fly: FlyCamera { position: ahead.fly.position, ..camera.fly },
                ..camera
            })
        }),
        forall|boosted: bool| #[trigger]
            camera.flown(
                ops,
                optics,
                movement,
                seconds,
                boosted,
            ).fly.speed_radii_per_second == camera.fly.speed_radii_per_second,
{
    let faster = Camera {
        fly: FlyCamera {
            speed_radii_per_second: ops.spec_product(
                camera.fly.speed_radii_per_second,
                FLY_BOOST,
            ),
            ..camera.fly
        },
        ..camera
    };
    assert(faster.pace(ops, optics, movement) == camera.pace(ops, optics, movement));
    assert(faster.stride(ops, optics, movement, seconds, false) == camera.stride(
        ops,
        optics,
        movement,
        seconds,
        true,
    ));
}

/// Whether a product takes four times the speed as four times the product, without rounding.
pub open spec fn four_goes_through<O: Arithmetic>(
    ops: &O,
    pace: u32,
    speed: u32,
    seconds: u32,
) -> bool {
    ops.spec_product(ops.spec_product(pace, ops.spec_product(speed, FLY_BOOST)), seconds)
        == ops.spec_product(ops.spec_product(ops.spec_product(pace, speed), seconds), FLY_BOOST)
}

/// A boosted flight goes four times as far as one without a boost, where the arithmetic multiplies
/// by four without rounding.
pub proof fn a_boost_goes_four_times_as_far<O: Arithmetic, T: Optics>(
    ops: &O,
    optics: &T,
    camera: Camera,
    movement: FlyMovement,
    delta_seconds: u32,
)
    requires
        ({
            let pace = camera.pace(ops, optics, movement);
            let speed = camera.fly.speed_radii_per_second;
            let seconds = scalar::clamped(delta_seconds, scalar::ZERO, MAX_FLY_DELTA_SECONDS);
            &&& four_goes_through(ops, pace.x, speed, seconds)
            &&& four_goes_through(ops, pace.y, speed, seconds)
            &&& four_goes_through(ops, pace.z, speed, seconds)
        }),
    ensures
        camera.stride(ops, optics, movement, delta_seconds, true) == arithmetic::spec_times(
            ops,
            camera.stride(ops, optics, movement, delta_seconds, false),
            FLY_BOOST,
        ),
{
}

} // verus!
