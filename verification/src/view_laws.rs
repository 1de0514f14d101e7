//! What a camera sees at a point of the screen, in numbers.
use crate::arithmetic;
use crate::arithmetic::Arithmetic;
use crate::camera;
use crate::camera::{CameraFrame, Ray};
use crate::input::ScreenPoint;
use crate::meaning;
use crate::meaning::{fits, is_rounding, rounds, value};
use crate::optics::{Clip, Optics};
use crate::scalar;
use crate::scalar::Point;
use vstd::prelude::*;

verus! {

/// Twice the share that a number has of the way from a low to a high one.
spec fn doubled_share<O: Arithmetic>(ops: &O, low: u32, high: u32, number: u32) -> u32 {
    ops.spec_product(
        ops.spec_quotient(ops.spec_difference(number, low), ops.spec_difference(high, low)),
        scalar::TWO,
    )
}

/// Whether a number lies between two others whose difference is a number.
pub open spec fn spans<O: Arithmetic>(ops: &O, low: u32, high: u32, number: u32) -> bool {
    &&& scalar::finite(low) && scalar::finite(high) && scalar::finite(number)
    &&& value(low) <= value(number) <= value(high)
    &&& scalar::finite(ops.spec_difference(high, low))
    &&& value(ops.spec_difference(high, low)) > 0 as real
}

/// Rounding keeps a number between the numbers of two patterns.
pub proof fn lemma_between(round: spec_fn(real) -> u32, bits: u32, number: real, low: u32, high: u32)
    requires
        is_rounding(round),
        scalar::same(bits, round(number)),
        scalar::finite(low),
        scalar::finite(high),
        value(low) <= number <= value(high),
    ensures
        scalar::finite(bits),
        value(low) <= value(bits) <= value(high),
        number == value(low) ==> value(bits) == value(low),
        number == value(high) ==> value(bits) == value(high),
{
    meaning::lemma_round(round, value(low), number);
    meaning::lemma_round(round, number, value(high));
    meaning::lemma_round(round, value(high), value(high));
    assert(fits(value(low)) && fits(value(high)));
    meaning::values_are_ordered(round(value(low)), low);
    meaning::values_are_ordered(round(value(high)), high);
    meaning::values_are_ordered(low, bits);
    meaning::values_are_ordered(bits, high);
}

proof fn lemma_doubled_share<O: Arithmetic>(
    ops: &O,
    round: spec_fn(real) -> u32,
    low: u32,
    high: u32,
    number: u32,
)
    requires
        rounds(ops, round),
        spans(ops, low, high, number),
    ensures
        scalar::finite(doubled_share(ops, low, high, number)),
        (0 as real) <= value(doubled_share(ops, low, high, number)) <= 2 as real,
        value(number) == value(low) ==> value(doubled_share(ops, low, high, number)) == 0 as real,
        value(number) == value(high) ==> value(doubled_share(ops, low, high, number)) == 2 as real,
{
    meaning::constants_mean_what_they_say();
    meaning::lemma_difference(ops, round, number, low);
    meaning::lemma_difference(ops, round, high, low);
    let whole = ops.spec_difference(high, low);
    let part = ops.spec_difference(number, low);
    meaning::lemma_round(round, 0 as real, value(number) - value(low));
    meaning::lemma_round(round, value(number) - value(low), value(high) - value(low));
    meaning::values_are_ordered(round(0 as real), scalar::ZERO);
    assert(fits(value(scalar::ZERO)));
    assert(scalar::le(scalar::ZERO, part) && scalar::le(part, whole));
    assert(scalar::finite(part));
    meaning::values_are_ordered(scalar::ZERO, part);
    meaning::values_are_ordered(part, whole);
    let (p, w) = (value(part), value(whole));
    if value(number) == value(low) {
        meaning::values_are_ordered(part, scalar::ZERO);
        assert(p == 0 as real);
    }
    if value(number) == value(high) {
        meaning::values_are_ordered(part, whole);
        assert(p == w);
    }
    meaning::lemma_quotient(ops, round, part, whole);
    let quotient = ops.spec_quotient(part, whole);
    assert((0 as real) <= p / w <= 1 as real && (p == 0 as real ==> p / w == 0 as real) && (p == w
        ==> p / w == 1 as real)) by (nonlinear_arith)
        requires
            (0 as real) <= p <= w,
            w > 0 as real,
    ;
    lemma_between(round, quotient, p / w, scalar::ZERO, scalar::ONE);
    meaning::lemma_product(ops, round, quotient, scalar::TWO);
    let q = value(quotient);
    assert(value(scalar::TWO) == 2 as real);
    lemma_between(
        round,
        doubled_share(ops, low, high, number),
        q * value(scalar::TWO),
        scalar::ZERO,
        scalar::TWO,
    );
}

proof fn lemma_doubled_share_grows<O: Arithmetic>(
    ops: &O,
    round: spec_fn(real) -> u32,
    low: u32,
    high: u32,
    a: u32,
    b: u32,
)
    requires
        rounds(ops, round),
        spans(ops, low, high, a),
        spans(ops, low, high, b),
        value(a) <= value(b),
    ensures
        value(doubled_share(ops, low, high, a)) <= value(doubled_share(ops, low, high, b)),
{
    meaning::constants_mean_what_they_say();
    lemma_doubled_share(ops, round, low, high, a);
    lemma_doubled_share(ops, round, low, high, b);
    let whole = ops.spec_difference(high, low);
    let (c, d) = (ops.spec_difference(a, low), ops.spec_difference(b, low));
    meaning::lemma_difference(ops, round, a, low);
    meaning::lemma_difference(ops, round, b, low);
    meaning::lemma_difference(ops, round, high, low);
    meaning::lemma_round(round, 0 as real, value(a) - value(low));
    meaning::lemma_round(round, value(a) - value(low), value(b) - value(low));
    meaning::lemma_round(round, value(b) - value(low), value(high) - value(low));
    assert(fits(value(scalar::ZERO)));
    meaning::values_are_ordered(round(0 as real), scalar::ZERO);
    assert(scalar::finite(c) && scalar::finite(d));
    meaning::values_are_ordered(c, d);
    meaning::values_are_ordered(scalar::ZERO, c);
    meaning::values_are_ordered(d, whole);
    let (e, f) = (ops.spec_quotient(c, whole), ops.spec_quotient(d, whole));
    meaning::lemma_quotient(ops, round, c, whole);
    meaning::lemma_quotient(ops, round, d, whole);
    let (p, q, w) = (value(c), value(d), value(whole));
    assert((0 as real) <= p / w <= q / w <= 1 as real) by (nonlinear_arith)
        requires
            (0 as real) <= p <= q <= w,
            w > 0 as real,
    ;
    lemma_between(round, e, p / w, scalar::ZERO, scalar::ONE);
    lemma_between(round, f, q / w, scalar::ZERO, scalar::ONE);
    meaning::lemma_round(round, p / w, q / w);
    meaning::values_are_ordered(e, f);
    meaning::lemma_product(ops, round, e, scalar::TWO);
    meaning::lemma_product(ops, round, f, scalar::TWO);
    meaning::lemma_round(round, value(e) * value(scalar::TWO), value(f) * value(scalar::TWO));
    meaning::values_are_ordered(
        doubled_share(ops, low, high, a),
        doubled_share(ops, low, high, b),
    );
}

/// The ray from the eye along the line from the nearest to the farthest point that is seen at a
/// place of clip space.
pub open spec fn ray_through<O: Arithmetic, T: Optics>(
    ops: &O,
    optics: &T,
    frame: CameraFrame,
    x: u32,
    y: u32,
) -> Option<Ray> {
    let near = camera::unprojected(
        ops,
        optics,
        frame.inverse_view_projection,
        Clip { x, y, z: scalar::ZERO, w: scalar::ONE },
    );
    let far = camera::unprojected(
        ops,
        optics,
        frame.inverse_view_projection,
        Clip { x, y, z: scalar::ONE, w: scalar::ONE },
    );
    match (near, far) {
        (Some(near), Some(far)) => {
            let direction = arithmetic::spec_unit(ops, arithmetic::spec_minus(ops, far, near));
            if direction.finite() && !direction.same(arithmetic::origin()) {
                Some(Ray { origin: frame.eye, direction })
            } else {
                None
            }
        },
        _ => None,
    }
}

/// Whether a frame's viewport is an upright rectangle of the screen that holds a pointer.
pub open spec fn on_screen<O: Arithmetic>(ops: &O, frame: CameraFrame, pointer: ScreenPoint) -> bool {
    &&& spans(ops, frame.viewport.min.x, frame.viewport.max.x, pointer.x)
    &&& spans(ops, frame.viewport.min.y, frame.viewport.max.y, pointer.y)
}

/// A pointer is unprojected at its own place in the viewport, whose left edge is at -1 and whose
/// right edge is at 1, and whose top edge is at 1 and whose bottom edge is at -1: clip space goes up
/// while the screen goes down.
pub proof fn a_pointer_is_unprojected_at_its_place<O: Arithmetic, T: Optics>(
    ops: &O,
    optics: &T,
    round: spec_fn(real) -> u32,
    frame: CameraFrame,
    pointer: ScreenPoint,
) -> (place: (u32, u32))
    requires
        rounds(ops, round),
        on_screen(ops, frame, pointer),
    ensures
        frame.spec_screen_ray(ops, optics, pointer) == ray_through(
            ops,
            optics,
            frame,
            place.0,
            place.1,
        ),
        place == (frame.across(ops, pointer), frame.upward(ops, pointer)),
        scalar::finite(place.0) && scalar::finite(place.1),
        -(1 as real) <= value(place.0) <= 1 as real,
        -(1 as real) <= value(place.1) <= 1 as real,
        scalar::same(pointer.x, frame.viewport.min.x) ==> value(place.0) == -(1 as real),
        scalar::same(pointer.x, frame.viewport.max.x) ==> value(place.0) == 1 as real,
        scalar::same(pointer.y, frame.viewport.min.y) ==> value(place.1) == 1 as real,
        scalar::same(pointer.y, frame.viewport.max.y) ==> value(place.1) == -(1 as real),
{
    meaning::constants_mean_what_they_say();
    let (min, max) = (frame.viewport.min, frame.viewport.max);
    lemma_doubled_share(ops, round, min.x, max.x, pointer.x);
    lemma_doubled_share(ops, round, min.y, max.y, pointer.y);
    let right = doubled_share(ops, min.x, max.x, pointer.x);
    let down = doubled_share(ops, min.y, max.y, pointer.y);
    meaning::lemma_difference(ops, round, right, scalar::ONE);
    meaning::lemma_difference(ops, round, scalar::ONE, down);
    let (x, y) = (frame.across(ops, pointer), frame.upward(ops, pointer));
    let minus_one = scalar::negated(scalar::ONE);
    meaning::the_sign_is_the_sign(scalar::ONE);
    lemma_between(round, x, value(right) - 1 as real, minus_one, scalar::ONE);
    lemma_between(round, y, 1 as real - value(down), minus_one, scalar::ONE);
    meaning::values_are_ordered(pointer.x, min.x);
    meaning::values_are_ordered(pointer.x, max.x);
    meaning::values_are_ordered(pointer.y, min.y);
    meaning::values_are_ordered(pointer.y, max.y);
    meaning::values_are_ordered(min.x, pointer.x);
    meaning::values_are_ordered(min.y, pointer.y);
    (x, y)
}

/// As a pointer goes right, what is unprojected goes right, and as it goes down the screen, down.
pub proof fn clip_space_follows_the_pointer<O: Arithmetic>(
    ops: &O,
    round: spec_fn(real) -> u32,
    frame: CameraFrame,
    a: ScreenPoint,
    b: ScreenPoint,
)
    requires
        rounds(ops, round),
        on_screen(ops, frame, a),
        on_screen(ops, frame, b),
    ensures
        scalar::le(a.x, b.x) ==> scalar::le(frame.across(ops, a), frame.across(ops, b)),
        scalar::le(a.y, b.y) ==> scalar::le(frame.upward(ops, b), frame.upward(ops, a)),
{
    meaning::constants_mean_what_they_say();
    let (min, max) = (frame.viewport.min, frame.viewport.max);
    meaning::values_are_ordered(a.x, b.x);
    meaning::values_are_ordered(a.y, b.y);
    if scalar::le(a.x, b.x) {
        lemma_doubled_share(ops, round, min.x, max.x, a.x);
        lemma_doubled_share(ops, round, min.x, max.x, b.x);
        lemma_doubled_share_grows(ops, round, min.x, max.x, a.x, b.x);
        let (c, d) = (
            doubled_share(ops, min.x, max.x, a.x),
            doubled_share(ops, min.x, max.x, b.x),
        );
        meaning::lemma_difference(ops, round, c, scalar::ONE);
        meaning::lemma_difference(ops, round, d, scalar::ONE);
        meaning::lemma_round(round, value(c) - 1 as real, value(d) - 1 as real);
    }
    if scalar::le(a.y, b.y) {
        lemma_doubled_share(ops, round, min.y, max.y, a.y);
        lemma_doubled_share(ops, round, min.y, max.y, b.y);
        lemma_doubled_share_grows(ops, round, min.y, max.y, a.y, b.y);
        let (c, d) = (
            doubled_share(ops, min.y, max.y, a.y),
            doubled_share(ops, min.y, max.y, b.y),
        );
        meaning::lemma_difference(ops, round, scalar::ONE, c);
        meaning::lemma_difference(ops, round, scalar::ONE, d);
        meaning::lemma_round(round, 1 as real - value(d), 1 as real - value(c));
    }
}

/// Whether a share of a way, and its place between -1 and 1, are worked out without rounding.
pub open spec fn share_fits(low: real, high: real, number: real) -> bool {
    let share = (number - low) / (high - low);
    &&& low < high
    &&& fits(number - low) && fits(high - low)
    &&& fits(share) && fits(2 as real * share)
    &&& fits(2 as real * share - 1 as real)
    &&& fits(1 as real - 2 as real * share)
}

/// Where nothing is rounded, clip space is the viewport stretched to run from -1 to 1 and turned
/// upside down.
pub proof fn clip_space_is_the_viewport_stretched<O: Arithmetic>(
    ops: &O,
    round: spec_fn(real) -> u32,
    frame: CameraFrame,
    pointer: ScreenPoint,
)
    requires
        rounds(ops, round),
        on_screen(ops, frame, pointer),
        share_fits(
            value(frame.viewport.min.x),
            value(frame.viewport.max.x),
            value(pointer.x),
        ),
        share_fits(
            value(frame.viewport.min.y),
            value(frame.viewport.max.y),
            value(pointer.y),
        ),
    ensures
        (value(frame.across(ops, pointer)) + 1 as real) * (value(frame.viewport.max.x) - value(
            frame.viewport.min.x,
        )) == 2 as real * (value(pointer.x) - value(frame.viewport.min.x)),
        (1 as real - value(frame.upward(ops, pointer))) * (value(frame.viewport.max.y) - value(
            frame.viewport.min.y,
        )) == 2 as real * (value(pointer.y) - value(frame.viewport.min.y)),
{
    meaning::constants_mean_what_they_say();
    let (min, max) = (frame.viewport.min, frame.viewport.max);
    lemma_exact_share(ops, round, min.x, max.x, pointer.x);
    lemma_exact_share(ops, round, min.y, max.y, pointer.y);
    let right = doubled_share(ops, min.x, max.x, pointer.x);
    let down = doubled_share(ops, min.y, max.y, pointer.y);
    meaning::lemma_difference(ops, round, right, scalar::ONE);
    meaning::lemma_difference(ops, round, scalar::ONE, down);
    let (w, h) = (value(max.x) - value(min.x), value(max.y) - value(min.y));
    let (p, q) = (value(pointer.x) - value(min.x), value(pointer.y) - value(min.y));
    assert(2 as real * (p / w) * w == 2 as real * p && 2 as real * (q / h) * h == 2 as real * q)
        by (nonlinear_arith)
        requires
            w > 0 as real,
            h > 0 as real,
    ;
}

proof fn lemma_exact_share<O: Arithmetic>(
    ops: &O,
    round: spec_fn(real) -> u32,
    low: u32,
    high: u32,
    number: u32,
)
    requires
        rounds(ops, round),
        spans(ops, low, high, number),
        share_fits(value(low), value(high), value(number)),
    ensures
        scalar::finite(doubled_share(ops, low, high, number)),
        value(doubled_share(ops, low, high, number)) == 2 as real * ((value(number) - value(low))
            / (value(high) - value(low))),
{
    meaning::constants_mean_what_they_say();
    meaning::lemma_difference(ops, round, number, low);
    meaning::lemma_difference(ops, round, high, low);
    let (part, whole) = (ops.spec_difference(number, low), ops.spec_difference(high, low));
    meaning::lemma_quotient(ops, round, part, whole);
    let quotient = ops.spec_quotient(part, whole);
    let q = value(quotient);
    assert(q * (2 as real) == 2 as real * q);
    meaning::lemma_product(ops, round, quotient, scalar::TWO);
}

/// What is unprojected is where it is in the world: scaled by its last coordinate, it is what the
/// inverse of the projection gives. There is nothing where that coordinate is negligible.
pub proof fn unprojecting_divides_by_the_last_coordinate<O: Arithmetic, T: Optics>(
    ops: &O,
    optics: &T,
    round: spec_fn(real) -> u32,
    frame: CameraFrame,
    clip: Clip,
)
    requires
        rounds(ops, round),
        ({
            let world = optics.spec_transform(frame.inverse_view_projection, clip);
            &&& world.finite()
            &&& value(world.w) > value(scalar::EPSILON) || value(world.w) < -value(
                scalar::EPSILON,
            )
            &&& fits(value(world.x) / value(world.w))
            &&& fits(value(world.y) / value(world.w))
            &&& fits(value(world.z) / value(world.w))
        }),
    ensures
        ({
            let world = optics.spec_transform(frame.inverse_view_projection, clip);
            let found = camera::unprojected(ops, optics, frame.inverse_view_projection, clip);
            &&& found is Some && found->0.finite()
            &&& value(found->0.x) * value(world.w) == value(world.x)
            &&& value(found->0.y) * value(world.w) == value(world.y)
            &&& value(found->0.z) * value(world.w) == value(world.z)
        }),
{
    let world = optics.spec_transform(frame.inverse_view_projection, clip);
    meaning::constants_mean_what_they_say();
    meaning::values_are_ordered(scalar::EPSILON, scalar::ZERO);
    let positive = scalar::magnitude(world.w) as u32;
    meaning::the_sign_is_the_sign(world.w);
    meaning::values_are_ordered(positive, scalar::EPSILON);
    meaning::values_are_ordered(world.w, scalar::ZERO);
    assert(positive == world.w || positive == scalar::negated(world.w));
    meaning::values_are_ordered(positive, scalar::ZERO);
    assert(!scalar::le(positive, scalar::EPSILON));
    crate::space::parts_divide_places(
        ops,
        round,
        Point { x: world.x, y: world.y, z: world.z },
        world.w,
    );
    let (x, y, z, w) = (value(world.x), value(world.y), value(world.z), value(world.w));
    assert(x / w * w == x && y / w * w == y && z / w * w == z) by (nonlinear_arith)
        requires
            w != 0 as real,
    ;
}

} // verus!
