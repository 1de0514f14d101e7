//! How a mesh is framed, and where a flight goes, in numbers.
use crate::arithmetic;
use crate::arithmetic::Arithmetic;
use crate::camera;
use crate::camera::{Camera, FlyMovement};
use crate::dab_laws;
use crate::dab_laws::between;
use crate::meaning;
use crate::meaning::{fits, rounds, value};
use crate::optics::Optics;
use crate::scalar;
use crate::scalar::Point;
use crate::space;
use crate::space::{added, holds, place, scaled};
use vstd::prelude::*;

verus! {

/// The lower and the higher of two corners, coordinate by coordinate.
pub open spec fn low_corner(
    a: (real, real, real),
    b: (real, real, real),
) -> (real, real, real) {
    (
        if a.0 < b.0 { a.0 } else { b.0 },
        if a.1 < b.1 { a.1 } else { b.1 },
        if a.2 < b.2 { a.2 } else { b.2 },
    )
}

pub open spec fn high_corner(
    a: (real, real, real),
    b: (real, real, real),
) -> (real, real, real) {
    (
        if a.0 > b.0 { a.0 } else { b.0 },
        if a.1 > b.1 { a.1 } else { b.1 },
        if a.2 > b.2 { a.2 } else { b.2 },
    )
}

proof fn lemma_corners(a: Point, b: Point)
    requires
        a.finite() && b.finite(),
    ensures
        a.least(b).finite() && a.greatest(b).finite(),
        place(a.least(b)) == low_corner(place(a), place(b)),
        place(a.greatest(b)) == high_corner(place(a), place(b)),
{
    dab_laws::extremes_bound_both(a.x, b.x);
    dab_laws::extremes_bound_both(a.y, b.y);
    dab_laws::extremes_bound_both(a.z, b.z);
}

/// Framing a mesh looks at the middle of its box: the target lies halfway between the corners.
pub proof fn framing_looks_at_the_middle<O: Arithmetic, T: Optics>(
    ops: &O,
    optics: &T,
    round: spec_fn(real) -> u32,
    camera: Camera,
    min: Point,
    max: Point,
)
    requires
        rounds(ops, round),
        min.finite() && max.finite(),
        ({
            let both = added(
                low_corner(place(min), place(max)),
                high_corner(place(min), place(max)),
            );
            holds(both) && holds(scaled(both, 1 as real / (2 as real)))
        }),
    ensures
        ({
            let fitted = camera.fitted(ops, optics, min, max);
            &&& fitted.orbit.target.finite()
            &&& scaled(place(fitted.orbit.target), 2 as real) == added(place(min), place(max))
            &&& fitted.mode is Orbit
            &&& place(fitted.bounds_minimum) == low_corner(place(min), place(max))
            &&& place(fitted.bounds_maximum) == high_corner(place(min), place(max))
        }),
{
    meaning::constants_mean_what_they_say();
    lemma_corners(min, max);
    let (low, high) = (min.least(max), min.greatest(max));
    space::sums_add_places(ops, round, low, high);
    let both = arithmetic::spec_plus(ops, low, high);
    space::multiples_scale_places(ops, round, both, scalar::HALF);
    assert(added(place(low), place(high)) == added(place(min), place(max)));
}

/// The radius of a framed mesh is half the diagonal of its box, and the camera stands so far away that
/// its angle takes in that radius with a margin of `1.15`.
pub proof fn framing_takes_in_the_whole_mesh<O: Arithmetic, T: Optics>(
    ops: &O,
    optics: &T,
    round: spec_fn(real) -> u32,
    camera: Camera,
    min: Point,
    max: Point,
    diagonal: real,
)
    requires
        rounds(ops, round),
        min.finite() && max.finite(),
        space::apart(
            high_corner(place(min), place(max)),
            low_corner(place(min), place(max)),
            diagonal,
        ),
        fits(diagonal * (1 as real / (2 as real))),
        scalar::finite(camera::SMALLEST_SCENE),
        diagonal >= 2 as real * value(camera::SMALLEST_SCENE),
        ({
            let sine = optics.spec_sine(ops.spec_product(camera.fov_y_radians, scalar::HALF));
            let radius = diagonal * (1 as real / (2 as real));
            &&& scalar::finite(sine) && value(sine) != 0 as real
            &&& scalar::finite(camera::FRAME_MARGIN)
            &&& fits(radius / value(sine))
            &&& fits(radius / value(sine) * value(camera::FRAME_MARGIN))
        }),
    ensures
        ({
            let fitted = camera.fitted(ops, optics, min, max);
            let sine = optics.spec_sine(ops.spec_product(camera.fov_y_radians, scalar::HALF));
            &&& 2 as real * value(fitted.scene_radius) == diagonal
            &&& value(fitted.orbit.distance) * value(sine) == value(fitted.scene_radius) * value(
                camera::FRAME_MARGIN,
            )
        }),
{
    meaning::constants_mean_what_they_say();
    lemma_corners(min, max);
    let (low, high) = (min.least(max), min.greatest(max));
    space::differences_subtract_places(ops, round, high, low);
    let way = arithmetic::spec_minus(ops, high, low);
    space::lengths_are_roots_of_squares(ops, round, way, diagonal);
    let length = arithmetic::spec_length(ops, way);
    meaning::lemma_product(ops, round, length, scalar::HALF);
    let half = ops.spec_product(length, scalar::HALF);
    dab_laws::extremes_bound_both(half, camera::SMALLEST_SCENE);
    let radius = scalar::greatest(half, camera::SMALLEST_SCENE);
    let sine = optics.spec_sine(ops.spec_product(camera.fov_y_radians, scalar::HALF));
    meaning::lemma_quotient(ops, round, radius, sine);
    let away = ops.spec_quotient(radius, sine);
    meaning::lemma_product(ops, round, away, camera::FRAME_MARGIN);
    let (r, s, m) = (value(radius), value(sine), value(camera::FRAME_MARGIN));
    let q = r / s;
    assert(q * s == r) by (nonlinear_arith)
        requires
            q == r / s,
            s != 0 as real,
    ;
    assert(q * m * s == q * s * m) by (nonlinear_arith);
}

/// A flight axis counts from minus one to one; what is no number counts for nothing.
pub proof fn an_axis_counts_up_to_one(axis: u32)
    requires
        scalar::finite(axis),
    ensures
        scalar::finite(camera::spec_finite_axis(axis)),
        value(camera::spec_finite_axis(axis)) == between(value(axis), -(1 as real), 1 as real),
{
    meaning::constants_mean_what_they_say();
    meaning::the_sign_is_the_sign(scalar::ONE);
    assert(scalar::negated(scalar::ONE) == camera::MINUS_ONE);
    dab_laws::clamping_brings_between(axis, camera::MINUS_ONE, scalar::ONE);
}

/// Level flight goes by the heading alone: forward along it, right a quarter turn to its right, and up
/// straight up.
pub proof fn level_flight_follows_the_heading<O: Arithmetic, T: Optics>(
    ops: &O,
    optics: &T,
    round: spec_fn(real) -> u32,
    camera: Camera,
    movement: FlyMovement,
)
    requires
        rounds(ops, round),
        camera.fly_movement_mode is Level,
        scalar::finite(movement.forward) && scalar::finite(movement.right) && scalar::finite(
            movement.up,
        ),
        ({
            let cosine = optics.spec_cosine(camera.fly.yaw);
            let sine = optics.spec_sine(camera.fly.yaw);
            let forward = between(value(movement.forward), -(1 as real), 1 as real);
            let right = between(value(movement.right), -(1 as real), 1 as real);
            let (c, s) = (value(cosine), value(sine));
            &&& scalar::finite(cosine) && scalar::finite(sine)
            &&& fits(c * forward) && fits(s * forward) && fits(c * right) && fits(s * right)
            &&& fits(c * forward + s * right) && fits(s * forward - c * right)
        }),
    ensures
        ({
            let (c, s) = (
                value(optics.spec_cosine(camera.fly.yaw)),
                value(optics.spec_sine(camera.fly.yaw)),
            );
            let forward = between(value(movement.forward), -(1 as real), 1 as real);
            let right = between(value(movement.right), -(1 as real), 1 as real);
            place(camera.course(ops, optics, movement)) == added(
                added(scaled((c, s, 0 as real), forward), scaled((s, -c, 0 as real), right)),
                (0 as real, 0 as real, between(value(movement.up), -(1 as real), 1 as real)),
            )
        }),
{
    an_axis_counts_up_to_one(movement.forward);
    an_axis_counts_up_to_one(movement.right);
    an_axis_counts_up_to_one(movement.up);
    let forward = camera::spec_finite_axis(movement.forward);
    let right = camera::spec_finite_axis(movement.right);
    let (x, y) = (optics.spec_cosine(camera.fly.yaw), optics.spec_sine(camera.fly.yaw));
    meaning::lemma_product(ops, round, x, forward);
    meaning::lemma_product(ops, round, y, right);
    meaning::lemma_product(ops, round, y, forward);
    meaning::lemma_product(ops, round, x, right);
    meaning::lemma_sum(
        ops,
        round,
        ops.spec_product(x, forward),
        ops.spec_product(y, right),
    );
    meaning::lemma_difference(
        ops,
        round,
        ops.spec_product(y, forward),
        ops.spec_product(x, right),
    );
    let (c, f, r) = (value(x), value(forward), value(right));
    assert((-c) * r == -(c * r)) by (nonlinear_arith);
    assert(0 as real * f == 0 as real);
    assert(0 as real * r == 0 as real);
}

/// A flight goes its way, with length one, by the radius of the scene, by its speed in radii, and by
/// the time, of which a tenth of a second counts at most.
pub proof fn a_stride_is_speed_by_time<O: Arithmetic, T: Optics>(
    ops: &O,
    optics: &T,
    round: spec_fn(real) -> u32,
    camera: Camera,
    movement: FlyMovement,
    seconds: u32,
)
    requires
        rounds(ops, round),
        scalar::finite(seconds),
        scalar::finite(camera::MAX_FLY_DELTA_SECONDS),
        value(camera::MAX_FLY_DELTA_SECONDS) >= 0 as real,
        camera.fly.position.finite(),
        scalar::finite(camera.fly.speed_radii_per_second),
        scalar::finite(camera::spec_radius(camera.scene_radius)),
        ({
            let way = arithmetic::spec_unit(ops, camera.course(ops, optics, movement));
            let time = between(
                value(seconds),
                0 as real,
                value(camera::MAX_FLY_DELTA_SECONDS),
            );
            let pace = scaled(place(way), value(camera::spec_radius(camera.scene_radius)));
            let speed = scaled(pace, value(camera.fly.speed_radii_per_second));
            let stride = scaled(speed, time);
            &&& way.finite()
            &&& holds(pace) && holds(speed) && holds(stride)
            &&& holds(added(place(camera.fly.position), stride))
        }),
    ensures
        ({
            let way = arithmetic::spec_unit(ops, camera.course(ops, optics, movement));
            let time = between(
                value(seconds),
                0 as real,
                value(camera::MAX_FLY_DELTA_SECONDS),
            );
            let pace = scaled(place(way), value(camera::spec_radius(camera.scene_radius)));
            let stride = scaled(scaled(pace, value(camera.fly.speed_radii_per_second)), time);
            place(camera.flown(ops, optics, movement, seconds, false).fly.position) == added(
                place(camera.fly.position),
                stride,
            )
        }),
{
    meaning::constants_mean_what_they_say();
    let way = arithmetic::spec_unit(ops, camera.course(ops, optics, movement));
    let radius = camera::spec_radius(camera.scene_radius);
    space::multiples_scale_places(ops, round, way, radius);
    let pace = arithmetic::spec_times(ops, way, radius);
    space::multiples_scale_places(ops, round, pace, camera.fly.speed_radii_per_second);
    let speed = arithmetic::spec_times(ops, pace, camera.fly.speed_radii_per_second);
    dab_laws::clamping_brings_between(seconds, scalar::ZERO, camera::MAX_FLY_DELTA_SECONDS);
    let time = scalar::clamped(seconds, scalar::ZERO, camera::MAX_FLY_DELTA_SECONDS);
    space::multiples_scale_places(ops, round, speed, time);
    let stride = arithmetic::spec_times(ops, speed, time);
    space::sums_add_places(ops, round, camera.fly.position, stride);
}

/// What is in view reaches from before the mesh to behind it: the near plane lies ahead of the eye,
/// the far plane at least twice as far, and both lie around the target by their radii.
pub proof fn the_view_reaches_past_the_mesh<O: Arithmetic>(
    ops: &O,
    round: spec_fn(real) -> u32,
    camera: Camera,
)
    requires
        rounds(ops, round),
        scalar::finite(camera.orbit.distance),
        scalar::finite(camera::spec_radius(camera.scene_radius)),
        scalar::finite(camera::ORBIT_NEAR_RADII) && scalar::finite(camera::THOUSANDTH),
        scalar::finite(camera::NEAREST) && scalar::finite(camera::FAR_RADII),
        ({
            let (d, r) = (
                value(camera.orbit.distance),
                value(camera::spec_radius(camera.scene_radius)),
            );
            &&& fits(r * value(camera::ORBIT_NEAR_RADII))
            &&& fits(d - r * value(camera::ORBIT_NEAR_RADII))
            &&& fits(r * value(camera::THOUSANDTH))
            &&& fits(r * value(camera::FAR_RADII)) && fits(d + r * value(camera::FAR_RADII))
            &&& fits(2 as real * value(camera.spec_orbit_near_far(ops).0))
        }),
    ensures
        ({
            let (near, far) = camera.spec_orbit_near_far(ops);
            let (d, r) = (
                value(camera.orbit.distance),
                value(camera::spec_radius(camera.scene_radius)),
            );
            let before = d - r * value(camera::ORBIT_NEAR_RADII);
            let behind = d + r * value(camera::FAR_RADII);
            &&& scalar::finite(near) && scalar::finite(far)
            &&& value(near) >= before && value(near) >= r * value(camera::THOUSANDTH)
            &&& value(near) >= value(camera::NEAREST)
            &&& value(near) == before || value(near) == r * value(camera::THOUSANDTH) || value(
                near,
            ) == value(camera::NEAREST)
            &&& value(far) >= behind && value(far) >= 2 as real * value(near)
            &&& value(far) == behind || value(far) == 2 as real * value(near)
        }),
{
    meaning::constants_mean_what_they_say();
    let radius = camera::spec_radius(camera.scene_radius);
    let distance = camera.orbit.distance;
    meaning::lemma_product(ops, round, radius, camera::ORBIT_NEAR_RADII);
    let front = ops.spec_product(radius, camera::ORBIT_NEAR_RADII);
    meaning::lemma_difference(ops, round, distance, front);
    let a = ops.spec_difference(distance, front);
    meaning::lemma_product(ops, round, radius, camera::THOUSANDTH);
    let b = ops.spec_product(radius, camera::THOUSANDTH);
    dab_laws::extremes_bound_both(a, b);
    dab_laws::extremes_bound_both(scalar::greatest(a, b), camera::NEAREST);
    let near = scalar::greatest(scalar::greatest(a, b), camera::NEAREST);
    meaning::lemma_product(ops, round, radius, camera::FAR_RADII);
    let back = ops.spec_product(radius, camera::FAR_RADII);
    meaning::lemma_sum(ops, round, distance, back);
    let n = value(near);
    assert(n * (2 as real) == 2 as real * n);
    meaning::lemma_product(ops, round, near, scalar::TWO);
    dab_laws::extremes_bound_both(
        ops.spec_sum(distance, back),
        ops.spec_product(near, scalar::TWO),
    );
}

} // verus!
