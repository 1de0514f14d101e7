//! Where the cameras go and what they look at, in numbers.
use crate::arithmetic;
use crate::arithmetic::Arithmetic;
use crate::camera;
use crate::camera::{Camera, OrbitCamera};
use crate::dab_laws;
use crate::dab_laws::between;
use crate::input::ScreenPoint;
use crate::meaning;
use crate::meaning::{fits, rounds, value};
use crate::optics::Optics;
use crate::scalar;
use crate::scalar::Point;
use crate::space;
use crate::space::{added, holds, inner, outer, outer_fits, place, scaled, subtracted};
use crate::view_laws;
use vstd::prelude::*;

verus! {

/// The numbers that turning goes by.
pub proof fn turning_goes_by_these_numbers()
    ensures
        scalar::finite(camera::ORBIT_RADIANS_PER_POINT),
        scalar::finite(camera::FLY_RADIANS_PER_POINT),
        scalar::finite(camera::STEEPEST) && scalar::finite(camera::STEEPEST_DOWN),
        79999 as real / (10000000 as real) < value(camera::ORBIT_RADIANS_PER_POINT) < 80001 as real
            / (10000000 as real),
        24999 as real / (10000000 as real) < value(camera::FLY_RADIANS_PER_POINT) < 25001 as real / (
        10000000 as real),
        15607 as real / (10000 as real) < value(camera::STEEPEST) < 15609 as real / (10000 as real),
        value(camera::STEEPEST_DOWN) == -value(camera::STEEPEST),
{
    meaning::lemma_powers();
    meaning::lemma_value_of(camera::ORBIT_RADIANS_PER_POINT, 120, 0x3_126f);
    meaning::lemma_value_of(camera::FLY_RADIANS_PER_POINT, 118, 0x23_d70a);
    meaning::lemma_value_of(camera::STEEPEST, 127, 0x47_c82d);
    meaning::the_sign_is_the_sign(camera::STEEPEST);
    assert(scalar::negated(camera::STEEPEST) == camera::STEEPEST_DOWN);
}

/// A number by a part of one is a number, on the same side of zero.
proof fn lemma_part<O: Arithmetic>(ops: &O, round: spec_fn(real) -> u32, a: u32, part: u32)
    requires
        rounds(ops, round),
        scalar::finite(a) && scalar::finite(part),
        (0 as real) < value(part) < 1 as real,
    ensures
        scalar::finite(ops.spec_product(a, part)),
        value(a) >= 0 as real ==> value(ops.spec_product(a, part)) >= 0 as real,
        value(a) <= 0 as real ==> value(ops.spec_product(a, part)) <= 0 as real,
        fits(value(a) * value(part)) ==> value(ops.spec_product(a, part)) == value(a) * value(part),
{
    meaning::constants_mean_what_they_say();
    meaning::lemma_product(ops, round, a, part);
    let (x, c) = (value(a), value(part));
    let product = ops.spec_product(a, part);
    if x >= 0 as real {
        assert((0 as real) <= x * c <= x) by (nonlinear_arith)
            requires
                x >= 0 as real,
                (0 as real) < c < 1 as real,
        ;
        view_laws::lemma_between(round, product, x * c, scalar::ZERO, a);
    } else {
        assert(x <= x * c <= 0 as real) by (nonlinear_arith)
            requires
                x <= 0 as real,
                (0 as real) < c < 1 as real,
        ;
        view_laws::lemma_between(round, product, x * c, a, scalar::ZERO);
    }
}

/// A sum does not fall below a number by adding what is no less than zero, nor rise above it by
/// adding what is no more.
proof fn lemma_sum_side<O: Arithmetic>(ops: &O, round: spec_fn(real) -> u32, a: u32, b: u32)
    requires
        rounds(ops, round),
        scalar::finite(a) && scalar::finite(b),
    ensures
        value(b) >= 0 as real ==> scalar::le(a, ops.spec_sum(a, b)),
        value(b) <= 0 as real ==> scalar::le(ops.spec_sum(a, b), a),
        value(b) >= 0 as real ==> scalar::le(ops.spec_difference(a, b), a),
        value(b) <= 0 as real ==> scalar::le(a, ops.spec_difference(a, b)),
{
    meaning::lemma_sum(ops, round, a, b);
    meaning::lemma_difference(ops, round, a, b);
    let (x, y) = (value(a), value(b));
    assert(fits(value(a)));
    meaning::lemma_round(round, x, x + y);
    meaning::lemma_round(round, x + y, x);
    meaning::lemma_round(round, x - y, x);
    meaning::lemma_round(round, x, x - y);
    meaning::values_are_ordered(round(x), a);
}

/// Dragging down lifts the orbiting camera over the mesh, dragging up lowers it, and its pitch stays
/// short of the poles; where nothing is rounded, a point of the screen is `0.008` radians.
pub proof fn dragging_down_lifts_the_orbit<O: Arithmetic, T: Optics>(
    ops: &O,
    optics: &T,
    round: spec_fn(real) -> u32,
    camera: Camera,
    delta: ScreenPoint,
)
    requires
        rounds(ops, round),
        scalar::finite(delta.x) && scalar::finite(delta.y),
        scalar::finite(camera.orbit.pitch),
        value(camera::STEEPEST_DOWN) <= value(camera.orbit.pitch) <= value(camera::STEEPEST),
    ensures
        ({
            let pitch = camera.orbited(ops, optics, delta).orbit.pitch;
            let step = value(delta.y) * value(camera::ORBIT_RADIANS_PER_POINT);
            &&& value(delta.y) >= 0 as real ==> scalar::le(camera.orbit.pitch, pitch)
            &&& value(delta.y) <= 0 as real ==> scalar::le(pitch, camera.orbit.pitch)
            &&& fits(step) && fits(value(camera.orbit.pitch) + step) ==> value(pitch) == between(
                value(camera.orbit.pitch) + step,
                -value(camera::STEEPEST),
                value(camera::STEEPEST),
            )
        }),
        camera.orbited(ops, optics, delta).orbit.target == camera.orbit.target,
        camera.orbited(ops, optics, delta).orbit.distance == camera.orbit.distance,
{
    turning_goes_by_these_numbers();
    let pitch = camera.orbit.pitch;
    lemma_part(ops, round, delta.y, camera::ORBIT_RADIANS_PER_POINT);
    let step = ops.spec_product(delta.y, camera::ORBIT_RADIANS_PER_POINT);
    lemma_sum_side(ops, round, pitch, step);
    meaning::lemma_sum(ops, round, pitch, step);
    meaning::values_are_ordered(camera::STEEPEST_DOWN, pitch);
    meaning::values_are_ordered(pitch, camera::STEEPEST);
    let sum = ops.spec_sum(pitch, step);
    if scalar::finite(sum) {
        dab_laws::clamping_brings_between(sum, camera::STEEPEST_DOWN, camera::STEEPEST);
    }
}

/// Dragging right turns the orbiting camera to the left around the mesh, so that what is seen goes
/// with the pointer: the heading before it is brought into one turn is no larger, and where nothing is
/// rounded smaller by `0.008` radians a point.
pub proof fn dragging_right_turns_the_orbit_back<O: Arithmetic, T: Optics>(
    ops: &O,
    optics: &T,
    round: spec_fn(real) -> u32,
    camera: Camera,
    delta: ScreenPoint,
) -> (heading: u32)
    requires
        rounds(ops, round),
        scalar::finite(delta.x) && scalar::finite(delta.y),
        scalar::finite(camera.orbit.yaw),
    ensures
        camera.orbited(ops, optics, delta).orbit.yaw == optics.spec_remainder(
            heading,
            camera::TAU,
        ),
        value(delta.x) >= 0 as real ==> scalar::le(heading, camera.orbit.yaw),
        value(delta.x) <= 0 as real ==> scalar::le(camera.orbit.yaw, heading),
        ({
            let step = value(delta.x) * value(camera::ORBIT_RADIANS_PER_POINT);
            fits(step) && fits(value(camera.orbit.yaw) - step) ==> scalar::finite(heading) && value(
                heading,
            ) == value(camera.orbit.yaw) - step
        }),
{
    turning_goes_by_these_numbers();
    lemma_part(ops, round, delta.x, camera::ORBIT_RADIANS_PER_POINT);
    let step = ops.spec_product(delta.x, camera::ORBIT_RADIANS_PER_POINT);
    lemma_sum_side(ops, round, camera.orbit.yaw, step);
    meaning::lemma_difference(ops, round, camera.orbit.yaw, step);
    ops.spec_difference(camera.orbit.yaw, step)
}

/// In flight, dragging down looks down and dragging up looks up, short of the poles; where nothing is
/// rounded, a point of the screen is `0.0025` radians.
pub proof fn dragging_down_looks_down<O: Arithmetic, T: Optics>(
    ops: &O,
    optics: &T,
    round: spec_fn(real) -> u32,
    camera: Camera,
    delta: ScreenPoint,
)
    requires
        rounds(ops, round),
        scalar::finite(delta.x) && scalar::finite(delta.y),
        scalar::finite(camera.fly.pitch),
        value(camera::STEEPEST_DOWN) <= value(camera.fly.pitch) <= value(camera::STEEPEST),
    ensures
        ({
            let pitch = camera.looked(ops, optics, delta).fly.pitch;
            let step = value(delta.y) * value(camera::FLY_RADIANS_PER_POINT);
            &&& value(delta.y) >= 0 as real ==> scalar::le(pitch, camera.fly.pitch)
            &&& value(delta.y) <= 0 as real ==> scalar::le(camera.fly.pitch, pitch)
            &&& fits(step) && fits(value(camera.fly.pitch) - step) ==> value(pitch) == between(
                value(camera.fly.pitch) - step,
                -value(camera::STEEPEST),
                value(camera::STEEPEST),
            )
        }),
        camera.looked(ops, optics, delta).fly.position == camera.fly.position,
{
    turning_goes_by_these_numbers();
    let pitch = camera.fly.pitch;
    lemma_part(ops, round, delta.y, camera::FLY_RADIANS_PER_POINT);
    let step = ops.spec_product(delta.y, camera::FLY_RADIANS_PER_POINT);
    lemma_sum_side(ops, round, pitch, step);
    meaning::lemma_difference(ops, round, pitch, step);
    meaning::values_are_ordered(camera::STEEPEST_DOWN, pitch);
    meaning::values_are_ordered(pitch, camera::STEEPEST);
    let left = ops.spec_difference(pitch, step);
    if scalar::finite(left) {
        dab_laws::clamping_brings_between(left, camera::STEEPEST_DOWN, camera::STEEPEST);
    }
}

/// In flight, dragging right looks to the right: headings run to the left.
pub proof fn dragging_right_looks_right<O: Arithmetic, T: Optics>(
    ops: &O,
    optics: &T,
    round: spec_fn(real) -> u32,
    camera: Camera,
    delta: ScreenPoint,
) -> (heading: u32)
    requires
        rounds(ops, round),
        scalar::finite(delta.x) && scalar::finite(delta.y),
        scalar::finite(camera.fly.yaw),
    ensures
        camera.looked(ops, optics, delta).fly.yaw == optics.spec_remainder(heading, camera::TAU),
        value(delta.x) >= 0 as real ==> scalar::le(heading, camera.fly.yaw),
        value(delta.x) <= 0 as real ==> scalar::le(camera.fly.yaw, heading),
        ({
            let step = value(delta.x) * value(camera::FLY_RADIANS_PER_POINT);
            fits(step) && fits(value(camera.fly.yaw) - step) ==> scalar::finite(heading) && value(
                heading,
            ) == value(camera.fly.yaw) - step
        }),
{
    turning_goes_by_these_numbers();
    lemma_part(ops, round, delta.x, camera::FLY_RADIANS_PER_POINT);
    let step = ops.spec_product(delta.x, camera::FLY_RADIANS_PER_POINT);
    lemma_sum_side(ops, round, camera.fly.yaw, step);
    meaning::lemma_difference(ops, round, camera.fly.yaw, step);
    ops.spec_difference(camera.fly.yaw, step)
}

/// The way of a heading and an inclination: its shadow on the ground has the cosine of the
/// inclination for its length, and it rises by the sine.
pub proof fn a_heading_leads_round_and_up<O: Arithmetic, T: Optics>(
    ops: &O,
    optics: &T,
    round: spec_fn(real) -> u32,
    yaw: u32,
    pitch: u32,
)
    requires
        rounds(ops, round),
        scalar::finite(optics.spec_cosine(yaw)) && scalar::finite(optics.spec_sine(yaw)),
        scalar::finite(optics.spec_cosine(pitch)) && scalar::finite(optics.spec_sine(pitch)),
        fits(value(optics.spec_cosine(yaw)) * value(optics.spec_cosine(pitch))),
        fits(value(optics.spec_sine(yaw)) * value(optics.spec_cosine(pitch))),
    ensures
        camera::spec_heading(ops, optics, yaw, pitch).finite(),
        place(camera::spec_heading(ops, optics, yaw, pitch)) == (
            value(optics.spec_cosine(yaw)) * value(optics.spec_cosine(pitch)),
            value(optics.spec_sine(yaw)) * value(optics.spec_cosine(pitch)),
            value(optics.spec_sine(pitch)),
        ),
{
    meaning::lemma_product(ops, round, optics.spec_cosine(yaw), optics.spec_cosine(pitch));
    meaning::lemma_product(ops, round, optics.spec_sine(yaw), optics.spec_cosine(pitch));
}

/// The eye of the orbiting camera is its distance away from the target, along its heading.
pub proof fn the_eye_is_a_distance_from_the_target<O: Arithmetic, T: Optics>(
    ops: &O,
    optics: &T,
    round: spec_fn(real) -> u32,
    orbit: OrbitCamera,
)
    requires
        rounds(ops, round),
        orbit.target.finite() && scalar::finite(orbit.distance),
        ({
            let heading = camera::spec_heading(ops, optics, orbit.yaw, orbit.pitch);
            &&& heading.finite()
            &&& holds(scaled(place(heading), value(orbit.distance)))
            &&& holds(added(place(orbit.target), scaled(place(heading), value(orbit.distance))))
        }),
    ensures
        orbit.spec_eye(ops, optics).finite(),
        subtracted(place(orbit.spec_eye(ops, optics)), place(orbit.target)) == scaled(
            place(camera::spec_heading(ops, optics, orbit.yaw, orbit.pitch)),
            value(orbit.distance),
        ),
{
    let heading = camera::spec_heading(ops, optics, orbit.yaw, orbit.pitch);
    space::multiples_scale_places(ops, round, heading, orbit.distance);
    space::sums_add_places(
        ops,
        round,
        orbit.target,
        arithmetic::spec_times(ops, heading, orbit.distance),
    );
}

/// The orbiting camera looks at its target: forward is the way from the eye to the target, with
/// length one.
pub proof fn the_orbit_looks_at_its_target<O: Arithmetic, T: Optics>(
    ops: &O,
    optics: &T,
    round: spec_fn(real) -> u32,
    orbit: OrbitCamera,
    length: real,
)
    requires
        rounds(ops, round),
        orbit.target.finite() && orbit.spec_eye(ops, optics).finite(),
        ({
            let way = subtracted(place(orbit.target), place(orbit.spec_eye(ops, optics)));
            holds(way) && space::has_unit(way, length)
        }),
    ensures
        orbit.spec_forward(ops, optics).finite(),
        scaled(place(orbit.spec_forward(ops, optics)), length) == subtracted(
            place(orbit.target),
            place(orbit.spec_eye(ops, optics)),
        ),
{
    let eye = orbit.spec_eye(ops, optics);
    space::differences_subtract_places(ops, round, orbit.target, eye);
    space::units_point_along(ops, round, arithmetic::spec_minus(ops, orbit.target, eye), length);
}

/// The right of a camera is level, across its forward, on the side where a look along Y has X.
pub proof fn right_is_level_and_across<O: Arithmetic>(
    ops: &O,
    round: spec_fn(real) -> u32,
    forward: Point,
    length: real,
)
    requires
        rounds(ops, round),
        forward.finite(),
        space::has_unit((value(forward.y), -value(forward.x), 0 as real), length),
    ensures
        camera::right_of(ops, forward).finite(),
        scaled(place(camera::right_of(ops, forward)), length) == (
            value(forward.y),
            -value(forward.x),
            0 as real,
        ),
        inner(scaled(place(camera::right_of(ops, forward)), length), place(forward)) == 0 as real,
{
    meaning::constants_mean_what_they_say();
    meaning::the_sign_is_the_sign(forward.x);
    let up = camera::upright();
    let (x, y, z) = place(forward);
    assert(fits(value(forward.x)) && fits(value(forward.y)) && fits(value(scalar::ZERO)));
    assert(fits(value(scalar::negated(forward.x))));
    assert(place(up) == (0 as real, 0 as real, 1 as real));
    assert(y * (1 as real) == y);
    assert(0 as real * z == 0 as real);
    assert(z * (0 as real) == 0 as real);
    assert(1 as real * x == x);
    assert(x * (0 as real) == 0 as real);
    assert(0 as real * y == 0 as real);
    assert(outer(place(forward), place(up)) == (y, -x, 0 as real));
    space::crosses_are_outer_products(ops, round, forward, up);
    space::units_point_along(ops, round, arithmetic::spec_cross(ops, forward, up), length);
    assert(y * x + (-x) * y + 0 as real * z == 0 as real) by (nonlinear_arith);
}

/// The up of a camera is across its right and its forward, which it completes to a right-handed
/// frame.
pub proof fn up_is_across_right_and_forward<O: Arithmetic>(
    ops: &O,
    round: spec_fn(real) -> u32,
    forward: Point,
    length: real,
)
    requires
        rounds(ops, round),
        forward.finite(),
        camera::right_of(ops, forward).finite(),
        outer_fits(place(camera::right_of(ops, forward)), place(forward)),
        space::has_unit(
            outer(place(camera::right_of(ops, forward)), place(forward)),
            length,
        ),
    ensures
        camera::up_of(ops, forward).finite(),
        scaled(place(camera::up_of(ops, forward)), length) == outer(
            place(camera::right_of(ops, forward)),
            place(forward),
        ),
{
    let right = camera::right_of(ops, forward);
    space::crosses_are_outer_products(ops, round, right, forward);
    space::units_point_along(ops, round, arithmetic::spec_cross(ops, right, forward), length);
}

/// A point of the screen is, at the target, the share of the view's height that the height of the
/// viewport gives it: all of them together are twice the distance by the tangent of half the angle.
pub proof fn points_share_out_the_height_of_the_view<O: Arithmetic, T: Optics>(
    ops: &O,
    optics: &T,
    round: spec_fn(real) -> u32,
    camera: Camera,
    height: u32,
)
    requires
        rounds(ops, round),
        scalar::finite(height) && value(height) > 0 as real,
        scalar::finite(camera.orbit.distance),
        ({
            let tangent = optics.spec_tangent(ops.spec_product(camera.fov_y_radians, scalar::HALF));
            let seen = 2 as real * value(camera.orbit.distance) * value(tangent);
            &&& scalar::finite(tangent)
            &&& fits(2 as real * value(camera.orbit.distance))
            &&& fits(seen) && fits(seen / value(height))
        }),
    ensures
        ({
            let tangent = optics.spec_tangent(ops.spec_product(camera.fov_y_radians, scalar::HALF));
            value(camera.spec_orbit_world_units_per_point(ops, optics, height)) * value(height)
                == 2 as real * value(camera.orbit.distance) * value(tangent)
        }),
{
    meaning::constants_mean_what_they_say();
    let tangent = optics.spec_tangent(ops.spec_product(camera.fov_y_radians, scalar::HALF));
    meaning::lemma_product(ops, round, scalar::TWO, camera.orbit.distance);
    let twice = ops.spec_product(scalar::TWO, camera.orbit.distance);
    meaning::lemma_product(ops, round, twice, tangent);
    let seen = ops.spec_product(twice, tangent);
    meaning::lemma_quotient(ops, round, seen, height);
    meaning::values_are_ordered(height, scalar::ZERO);
    let (s, h) = (value(seen), value(height));
    assert(s / h * h == s) by (nonlinear_arith)
        requires
            h > 0 as real,
    ;
}

/// Panning moves the target against the pointer: to the left by as much of the world as the pointer
/// went to the right, and up by as much as it went down.
pub proof fn panning_moves_the_target_against_the_pointer<O: Arithmetic, T: Optics>(
    ops: &O,
    optics: &T,
    round: spec_fn(real) -> u32,
    camera: Camera,
    delta: ScreenPoint,
    height: u32,
) -> (sideways: Point)
    requires
        rounds(ops, round),
        scalar::finite(delta.x) && scalar::finite(delta.y) && scalar::finite(height),
        camera.orbit.target.finite(),
        ({
            let scale = camera.spec_orbit_world_units_per_point(ops, optics, height);
            let right = camera::right_of(ops, camera.orbit.spec_forward(ops, optics));
            let across = scaled(place(right), value(delta.x));
            &&& scalar::finite(scale) && right.finite()
            &&& holds(across) && holds(scaled(across, value(scale)))
            &&& holds(subtracted(place(camera.orbit.target), scaled(across, value(scale))))
        }),
    ensures
        ({
            let scale = camera.spec_orbit_world_units_per_point(ops, optics, height);
            let right = camera::right_of(ops, camera.orbit.spec_forward(ops, optics));
            let moved = OrbitCamera { target: sideways, ..camera.orbit };
            let up = camera::up_of(ops, moved.spec_forward(ops, optics));
            let along = scaled(place(up), value(delta.y));
            &&& place(sideways) == subtracted(
                place(camera.orbit.target),
                scaled(scaled(place(right), value(delta.x)), value(scale)),
            )
            &&& up.finite() && holds(along) && holds(scaled(along, value(scale))) && holds(
                added(place(sideways), scaled(along, value(scale))),
            ) ==> place(camera.panned(ops, optics, delta, height).orbit.target) == added(
                place(sideways),
                scaled(along, value(scale)),
            )
        }),
{
    let scale = camera.spec_orbit_world_units_per_point(ops, optics, height);
    let right = camera::right_of(ops, camera.orbit.spec_forward(ops, optics));
    space::multiples_scale_places(ops, round, right, delta.x);
    let across = arithmetic::spec_times(ops, right, delta.x);
    space::multiples_scale_places(ops, round, across, scale);
    let step = arithmetic::spec_times(ops, across, scale);
    space::differences_subtract_places(ops, round, camera.orbit.target, step);
    let sideways = arithmetic::spec_minus(ops, camera.orbit.target, step);
    let moved = OrbitCamera { target: sideways, ..camera.orbit };
    let up = camera::up_of(ops, moved.spec_forward(ops, optics));
    let along = scaled(place(up), value(delta.y));
    if up.finite() && holds(along) && holds(scaled(along, value(scale))) && holds(
        added(place(sideways), scaled(along, value(scale))),
    ) {
        space::multiples_scale_places(ops, round, up, delta.y);
        let lifted = arithmetic::spec_times(ops, up, delta.y);
        space::multiples_scale_places(ops, round, lifted, scale);
        space::sums_add_places(
            ops,
            round,
            sideways,
            arithmetic::spec_times(ops, lifted, scale),
        );
    }
    sideways
}

/// Whether larger exponents give larger powers, none of them less than nothing.
pub open spec fn grows<T: Optics>(optics: &T) -> bool {
    &&& forall|a: u32, b: u32|
        scalar::le(a, b) ==> scalar::le(
            #[trigger] optics.spec_exponential(a),
            #[trigger] optics.spec_exponential(b),
        )
    &&& forall|a: u32|
        scalar::finite(a) ==> scalar::le(scalar::ZERO, #[trigger] optics.spec_exponential(a))
}

/// The numbers that zooming and speeding up go by.
pub proof fn zooming_goes_by_these_numbers()
    ensures
        scalar::finite(camera::ZOOM_EXPONENT_PER_POINT),
        scalar::finite(camera::FLY_WHEEL_EXPONENT_PER_POINT),
        14999 as real / (10000000 as real) < value(camera::ZOOM_EXPONENT_PER_POINT) < 15001 as real
            / (10000000 as real),
        49999 as real / (10000000 as real) < value(camera::FLY_WHEEL_EXPONENT_PER_POINT)
            < 50001 as real / (10000000 as real),
        scalar::finite(camera::MAX_FLY_WHEEL_POINTS) && scalar::finite(
            camera::MIN_FLY_WHEEL_POINTS,
        ),
        value(camera::MAX_FLY_WHEEL_POINTS) == 240 as real,
        value(camera::MIN_FLY_WHEEL_POINTS) == -(240 as real),
{
    meaning::lemma_powers();
    meaning::lemma_value_of(camera::ZOOM_EXPONENT_PER_POINT, 117, 0x44_9ba6);
    meaning::lemma_value_of(camera::FLY_WHEEL_EXPONENT_PER_POINT, 119, 0x23_d70a);
    meaning::lemma_value_of(camera::MAX_FLY_WHEEL_POINTS, 134, 0x70_0000);
    meaning::the_sign_is_the_sign(camera::MAX_FLY_WHEEL_POINTS);
    assert(scalar::negated(camera::MAX_FLY_WHEEL_POINTS) == camera::MIN_FLY_WHEEL_POINTS);
}

/// A product does not fall as its second factor grows, where the first is no less than nothing.
proof fn lemma_product_grows<O: Arithmetic>(
    ops: &O,
    round: spec_fn(real) -> u32,
    a: u32,
    b: u32,
    c: u32,
)
    requires
        rounds(ops, round),
        scalar::finite(a) && scalar::finite(b) && scalar::finite(c),
        value(a) >= 0 as real,
        value(b) <= value(c),
    ensures
        scalar::le(ops.spec_product(a, b), ops.spec_product(a, c)),
        scalar::le(ops.spec_product(b, a), ops.spec_product(c, a)),
{
    meaning::lemma_product(ops, round, a, b);
    meaning::lemma_product(ops, round, a, c);
    meaning::lemma_product(ops, round, b, a);
    meaning::lemma_product(ops, round, c, a);
    let (x, y, z) = (value(a), value(b), value(c));
    assert(x * y <= x * z) by (nonlinear_arith)
        requires
            x >= 0 as real,
            y <= z,
    ;
    assert(y * x <= z * x) by (nonlinear_arith)
        requires
            x >= 0 as real,
            y <= z,
    ;
    meaning::lemma_round(round, x * y, x * z);
    meaning::lemma_round(round, y * x, z * x);
}

/// Scrolling farther zooms in: the farther the scroll, the nearer the camera, and never farther away.
pub proof fn scrolling_on_zooms_in<O: Arithmetic, T: Optics>(
    ops: &O,
    optics: &T,
    round: spec_fn(real) -> u32,
    camera: Camera,
    less: u32,
    more: u32,
)
    requires
        rounds(ops, round),
        grows(optics),
        scalar::finite(less) && scalar::finite(more),
        value(less) <= value(more),
        scalar::finite(camera.orbit.distance) && value(camera.orbit.distance) >= 0 as real,
        forall|a: u32|
            scalar::finite(a) ==> scalar::finite(#[trigger] optics.spec_exponential(a)),
        ({
            let radius = camera::spec_radius(camera.scene_radius);
            scalar::le(
                ops.spec_product(radius, camera::CLOSEST_ZOOM),
                ops.spec_product(radius, camera::FARTHEST_ZOOM),
            )
        }),
    ensures
        scalar::le(
            camera.zoomed(ops, optics, more).orbit.distance,
            camera.zoomed(ops, optics, less).orbit.distance,
        ),
        camera.zoomed(ops, optics, more).orbit.target == camera.orbit.target,
{
    zooming_goes_by_these_numbers();
    let rate = camera::ZOOM_EXPONENT_PER_POINT;
    let (a, b) = (scalar::negated(less), scalar::negated(more));
    meaning::the_sign_is_the_sign(less);
    meaning::the_sign_is_the_sign(more);
    lemma_part(ops, round, a, rate);
    lemma_part(ops, round, b, rate);
    lemma_product_grows(ops, round, rate, b, a);
    let (p, q) = (
        optics.spec_exponential(ops.spec_product(a, rate)),
        optics.spec_exponential(ops.spec_product(b, rate)),
    );
    assert(scalar::le(q, p));
    meaning::values_are_ordered(q, p);
    lemma_product_grows(ops, round, camera.orbit.distance, q, p);
}

/// Turning the wheel on flies faster, and no slower.
pub proof fn turning_the_wheel_on_flies_faster<O: Arithmetic, T: Optics>(
    ops: &O,
    optics: &T,
    round: spec_fn(real) -> u32,
    camera: Camera,
    less: u32,
    more: u32,
)
    requires
        rounds(ops, round),
        grows(optics),
        scalar::finite(less) && scalar::finite(more),
        value(less) <= value(more),
        scalar::finite(camera.fly.speed_radii_per_second),
        value(camera.fly.speed_radii_per_second) >= 0 as real,
        forall|a: u32|
            scalar::finite(a) ==> scalar::finite(#[trigger] optics.spec_exponential(a)),
    ensures
        scalar::le(
            camera.sped(ops, optics, less).fly.speed_radii_per_second,
            camera.sped(ops, optics, more).fly.speed_radii_per_second,
        ),
        camera.sped(ops, optics, more).fly.position == camera.fly.position,
{
    zooming_goes_by_these_numbers();
    let rate = camera::FLY_WHEEL_EXPONENT_PER_POINT;
    let (low, high) = (camera::MIN_FLY_WHEEL_POINTS, camera::MAX_FLY_WHEEL_POINTS);
    dab_laws::clamping_brings_between(less, low, high);
    dab_laws::clamping_brings_between(more, low, high);
    let (a, b) = (scalar::clamped(less, low, high), scalar::clamped(more, low, high));
    lemma_part(ops, round, a, rate);
    lemma_part(ops, round, b, rate);
    lemma_product_grows(ops, round, rate, a, b);
    let (p, q) = (
        optics.spec_exponential(ops.spec_product(a, rate)),
        optics.spec_exponential(ops.spec_product(b, rate)),
    );
    assert(scalar::le(p, q));
    meaning::values_are_ordered(p, q);
    lemma_product_grows(ops, round, camera.fly.speed_radii_per_second, p, q);
}

} // verus!
