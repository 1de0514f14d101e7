//! What mirroring and the falloff of a brush do, in numbers.
use crate::arithmetic;
use crate::arithmetic::Arithmetic;
use crate::brush;
use crate::brush::{BrushSettings, SymmetryAxis};
use crate::meaning;
use crate::meaning::{fits, rounds, value};
use crate::scalar;
use crate::scalar::Point;
use crate::space;
use crate::space::place;
use vstd::prelude::*;

verus! {

/// Mirroring, of a point and of a direction, leaves the coordinates of the other two axes as they
/// are, bit for bit.
pub proof fn mirroring_keeps_the_other_coordinates<O: Arithmetic>(
    ops: &O,
    axis: SymmetryAxis,
    point: Point,
    center: Point,
)
    ensures
        axis != SymmetryAxis::X ==> axis.spec_reflect_point(ops, point, center).x == point.x,
        axis != SymmetryAxis::Y ==> axis.spec_reflect_point(ops, point, center).y == point.y,
        axis != SymmetryAxis::Z ==> axis.spec_reflect_point(ops, point, center).z == point.z,
        axis != SymmetryAxis::X ==> axis.spec_reflect_vector(point).x == point.x,
        axis != SymmetryAxis::Y ==> axis.spec_reflect_vector(point).y == point.y,
        axis != SymmetryAxis::Z ==> axis.spec_reflect_vector(point).z == point.z,
{
}

/// A mirrored direction is where its place is mirrored in the plane through the origin.
pub proof fn a_mirrored_direction_turns_one_coordinate_around(axis: SymmetryAxis, vector: Point)
    ensures
        place(axis.spec_reflect_vector(vector)) == match axis {
            SymmetryAxis::X => (-value(vector.x), value(vector.y), value(vector.z)),
            SymmetryAxis::Y => (value(vector.x), -value(vector.y), value(vector.z)),
            SymmetryAxis::Z => (value(vector.x), value(vector.y), -value(vector.z)),
        },
{
    meaning::the_sign_is_the_sign(vector.x);
    meaning::the_sign_is_the_sign(vector.y);
    meaning::the_sign_is_the_sign(vector.z);
}

/// The coordinate of a point along an axis.
pub open spec fn along(axis: SymmetryAxis, point: Point) -> u32 {
    match axis {
        SymmetryAxis::X => point.x,
        SymmetryAxis::Y => point.y,
        SymmetryAxis::Z => point.z,
    }
}

/// The mirrored coordinate is as far beyond the plane as the coordinate was before it: twice the
/// plane's coordinate less the point's, rounded once. So a point of the plane stays where it is, the
/// plane lies halfway between a point and its mirror image, and mirroring twice gives the point
/// back where nothing had to be rounded.
pub proof fn mirroring_goes_as_far_beyond_the_plane<O: Arithmetic>(
    ops: &O,
    round: spec_fn(real) -> u32,
    axis: SymmetryAxis,
    point: Point,
    center: Point,
)
    requires
        rounds(ops, round),
        scalar::finite(along(axis, point)),
        scalar::finite(along(axis, center)),
        fits(2 as real * value(along(axis, center))),
    ensures
        scalar::same(
            along(axis, axis.spec_reflect_point(ops, point, center)),
            round(2 as real * value(along(axis, center)) - value(along(axis, point))),
        ),
        scalar::same(along(axis, point), along(axis, center)) ==> scalar::same(
            along(axis, axis.spec_reflect_point(ops, point, center)),
            along(axis, point),
        ),
        fits(2 as real * value(along(axis, center)) - value(along(axis, point))) ==> {
            let mirrored = axis.spec_reflect_point(ops, point, center);
            &&& scalar::finite(along(axis, mirrored))
            &&& value(along(axis, mirrored)) - value(along(axis, center)) == value(
                along(axis, center),
            ) - value(along(axis, point))
            &&& scalar::same(
                along(axis, axis.spec_reflect_point(ops, mirrored, center)),
                along(axis, point),
            )
        },
{
    let c = along(axis, center);
    let p = along(axis, point);
    meaning::constants_mean_what_they_say();
    meaning::lemma_product(ops, round, scalar::TWO, c);
    let twice = ops.spec_product(scalar::TWO, c);
    meaning::lemma_difference(ops, round, twice, p);
    let across = ops.spec_difference(twice, p);
    meaning::values_are_ordered(p, c);
    assert(along(axis, axis.spec_reflect_point(ops, point, center)) == across);
    if scalar::same(p, c) {
        assert(2 as real * value(c) - value(p) == value(p));
        assert(fits(value(p)));
        meaning::values_are_ordered(across, p);
    }
    if fits(2 as real * value(c) - value(p)) {
        meaning::lemma_difference(ops, round, twice, across);
        let back = ops.spec_difference(twice, across);
        assert(value(twice) - value(across) == value(p));
        assert(fits(value(p)));
        meaning::values_are_ordered(back, p);
        let mirrored = axis.spec_reflect_point(ops, point, center);
        assert(along(axis, mirrored) == across);
        assert(along(axis, axis.spec_reflect_point(ops, mirrored, center)) == back);
    }
}

/// The core of a brush never reaches its edge; it stops at `0.9999`.
pub proof fn the_hardest_core_stops_short_of_the_edge()
    ensures
        scalar::finite(brush::HARDEST),
        scalar::lt(scalar::HALF, brush::HARDEST),
        scalar::lt(brush::HARDEST, scalar::ONE),
        99989990 as real / (100000000 as real) < value(brush::HARDEST) < 99990010 as real / (
        100000000 as real),
{
    meaning::lemma_powers();
    meaning::lemma_value_of(brush::HARDEST, 126, 0x7f_f972);
}

/// How much of a brush's strength is left over a share of the way from its core to its edge.
pub open spec fn eased(way: real) -> real {
    1 as real - way * way * (3 as real - 2 as real * way)
}

/// Whether that is worked out without rounding.
pub open spec fn eases(way: real) -> bool {
    &&& fits(way)
    &&& fits(way * way)
    &&& fits(2 as real * way)
    &&& fits(3 as real - 2 as real * way)
    &&& fits(way * way * (3 as real - 2 as real * way))
    &&& fits(eased(way))
}

/// The share of the way from the core to the edge at a distance.
pub open spec fn share(distance: real, core: real) -> real {
    (distance - core) / (1 as real - core)
}

/// A smooth step is one at the start, zero at the end, a half halfway, and falls in between.
pub proof fn easing_falls(a: real, b: real)
    requires
        (0 as real) <= a <= b <= 1 as real,
    ensures
        eased(b) <= eased(a),
        a < b ==> eased(b) < eased(a),
        (0 as real) <= eased(a) <= 1 as real,
        eased(0 as real) == 1 as real,
        eased(1 as real) == 0 as real,
        eased(1 as real / (2 as real)) == 1 as real / (2 as real),
        eased(1 as real - a) == 1 as real - eased(a),
{
    assert(eased(a) - eased(b) == (b - a) * (3 as real * (a + b) - 2 as real * (a * a + a * b + b
        * b))) by (nonlinear_arith);
    let s = 3 as real * (a + b) - 2 as real * (a * a + a * b + b * b);
    assert(s >= 0 as real && (b > a ==> s > 0 as real)) by (nonlinear_arith)
        requires
            (0 as real) <= a <= b <= 1 as real,
            s == 3 as real * (a + b) - 2 as real * (a * a + a * b + b * b),
    {
        assert(a * a <= a);
        assert(b * b <= b);
        assert(a * b <= a);
        assert(s >= a + b - 2 as real * (a * b));
        assert(a * b <= b * b);
        assert(a * (1 as real - b) >= 0 as real);
        assert(b * (1 as real - a) >= 0 as real);
        if b > a {
            assert(b * (1 as real - a) > 0 as real);
        }
    }
    assert((b - a) * s >= 0 as real && (b > a ==> (b - a) * s > 0 as real)) by (nonlinear_arith)
        requires
            b >= a,
            s >= 0 as real,
            b > a ==> s > 0 as real,
    ;
    assert((0 as real) <= eased(a) <= 1 as real) by (nonlinear_arith)
        requires
            (0 as real) <= a <= 1 as real,
    {
        let u = 1 as real - a;
        assert(eased(a) == u * u * (1 as real + 2 as real * a));
        assert(u * u >= 0 as real);
        assert(u * u * (1 as real + 2 as real * a) >= 0 as real);
        assert(a * a >= 0 as real);
        assert(a * a * (3 as real - 2 as real * a) >= 0 as real);
    }
    assert(eased(1 as real - a) == 1 as real - eased(a)) by (nonlinear_arith);
    assert(eased(0 as real) == 1 as real) by (nonlinear_arith);
    assert(eased(1 as real) == 0 as real) by (nonlinear_arith);
    assert(eased(1 as real / (2 as real)) == 1 as real / (2 as real)) by (nonlinear_arith);
}

/// A brush is at full strength from its center to its core, and at none from its edge on.
pub proof fn a_brush_is_full_inside_and_empty_outside<O: Arithmetic>(
    ops: &O,
    distance: u32,
    hardness: u32,
)
    requires
        scalar::finite(distance),
        scalar::finite(hardness),
    ensures
        value(distance) >= 1 as real ==> value(brush::falloff_of(ops, distance, hardness))
            == 0 as real,
        value(distance) <= 0 as real ==> value(brush::falloff_of(ops, distance, hardness))
            == 1 as real,
        value(distance) <= value(hardness) && value(distance) <= value(brush::HARDEST)
            ==> value(brush::falloff_of(ops, distance, hardness)) == 1 as real,
        scalar::lt(hardness, scalar::ZERO) ==> brush::falloff_of(ops, distance, hardness)
            == brush::falloff_of(ops, distance, scalar::ZERO),
        scalar::le(brush::HARDEST, hardness) ==> brush::falloff_of(ops, distance, hardness)
            == brush::falloff_of(ops, distance, brush::HARDEST),
{
    meaning::constants_mean_what_they_say();
    the_hardest_core_stops_short_of_the_edge();
    meaning::values_are_ordered(distance, scalar::ZERO);
    meaning::values_are_ordered(scalar::ONE, distance);
    meaning::values_are_ordered(distance, hardness);
    meaning::values_are_ordered(distance, brush::HARDEST);
    meaning::values_are_ordered(brush::HARDEST, scalar::ONE);
    meaning::values_are_ordered(hardness, scalar::ZERO);
}

/// Between its core and its edge, a brush eases out: its strength is the smooth step over the share
/// of the way, where nothing has to be rounded.
pub proof fn the_falloff_is_a_smooth_step<O: Arithmetic>(
    ops: &O,
    round: spec_fn(real) -> u32,
    distance: u32,
    hardness: u32,
)
    requires
        rounds(ops, round),
        scalar::finite(distance),
        scalar::finite(hardness),
        (0 as real) <= value(hardness) <= value(brush::HARDEST),
        value(hardness) < value(distance) < 1 as real,
        fits(value(distance) - value(hardness)),
        fits(1 as real - value(hardness)),
        eases(share(value(distance), value(hardness))),
    ensures
        (0 as real) < share(value(distance), value(hardness)) < 1 as real,
        scalar::finite(brush::falloff_of(ops, distance, hardness)),
        value(brush::falloff_of(ops, distance, hardness)) == eased(
            share(value(distance), value(hardness)),
        ),
{
    meaning::constants_mean_what_they_say();
    the_hardest_core_stops_short_of_the_edge();
    meaning::values_are_ordered(distance, scalar::ZERO);
    meaning::values_are_ordered(scalar::ONE, distance);
    meaning::values_are_ordered(distance, hardness);
    meaning::values_are_ordered(brush::HARDEST, hardness);
    meaning::values_are_ordered(brush::HARDEST, scalar::ONE);
    meaning::values_are_ordered(hardness, scalar::ZERO);
    let d = value(distance);
    let h = value(hardness);
    meaning::lemma_difference(ops, round, distance, hardness);
    meaning::lemma_difference(ops, round, scalar::ONE, hardness);
    let from = ops.spec_difference(distance, hardness);
    let whole = ops.spec_difference(scalar::ONE, hardness);
    meaning::lemma_quotient(ops, round, from, whole);
    let t = ops.spec_quotient(from, whole);
    assert((0 as real) < share(d, h) < 1 as real) by (nonlinear_arith)
        requires
            h < d < 1 as real,
    ;
    meaning::values_are_ordered(t, scalar::ZERO);
    meaning::values_are_ordered(scalar::ONE, t);
    lemma_eased(ops, round, t);
}

/// The arithmetic of a smooth step.
proof fn lemma_eased<O: Arithmetic>(ops: &O, round: spec_fn(real) -> u32, t: u32)
    requires
        rounds(ops, round),
        scalar::finite(t),
        eases(value(t)),
    ensures
        ({
            let result = ops.spec_difference(
                scalar::ONE,
                ops.spec_product(
                    ops.spec_product(t, t),
                    ops.spec_difference(scalar::THREE, ops.spec_product(scalar::TWO, t)),
                ),
            );
            scalar::finite(result) && value(result) == eased(value(t))
        }),
{
    meaning::constants_mean_what_they_say();
    meaning::lemma_product(ops, round, t, t);
    meaning::lemma_product(ops, round, scalar::TWO, t);
    let square = ops.spec_product(t, t);
    let twice = ops.spec_product(scalar::TWO, t);
    meaning::lemma_difference(ops, round, scalar::THREE, twice);
    let left = ops.spec_difference(scalar::THREE, twice);
    meaning::lemma_product(ops, round, square, left);
    let step = ops.spec_product(square, left);
    meaning::lemma_difference(ops, round, scalar::ONE, step);
}

/// The strength of a brush does not grow with the distance, and falls between its core and its
/// edge.
pub proof fn the_falloff_does_not_grow<O: Arithmetic>(
    ops: &O,
    round: spec_fn(real) -> u32,
    near: u32,
    far: u32,
    hardness: u32,
)
    requires
        rounds(ops, round),
        scalar::finite(near),
        scalar::finite(far),
        scalar::finite(hardness),
        (0 as real) <= value(hardness) <= value(brush::HARDEST),
        value(near) <= value(far),
        value(hardness) < value(near) < 1 as real ==> fits(value(near) - value(hardness)) && eases(
            share(value(near), value(hardness)),
        ),
        value(hardness) < value(far) < 1 as real ==> fits(value(far) - value(hardness)) && eases(
            share(value(far), value(hardness)),
        ),
        fits(1 as real - value(hardness)),
    ensures
        scalar::le(
            brush::falloff_of(ops, far, hardness),
            brush::falloff_of(ops, near, hardness),
        ),
        value(hardness) < value(near) < value(far) <= 1 as real ==> scalar::lt(
            brush::falloff_of(ops, far, hardness),
            brush::falloff_of(ops, near, hardness),
        ),
        scalar::le(scalar::ZERO, brush::falloff_of(ops, far, hardness)),
        scalar::le(brush::falloff_of(ops, near, hardness), scalar::ONE),
{
    meaning::constants_mean_what_they_say();
    the_hardest_core_stops_short_of_the_edge();
    meaning::values_are_ordered(brush::HARDEST, scalar::ONE);
    let h = value(hardness);
    let (n, f) = (value(near), value(far));
    a_brush_is_full_inside_and_empty_outside(ops, near, hardness);
    a_brush_is_full_inside_and_empty_outside(ops, far, hardness);
    let a = brush::falloff_of(ops, near, hardness);
    let b = brush::falloff_of(ops, far, hardness);
    if h < n && n < 1 as real {
        the_falloff_is_a_smooth_step(ops, round, near, hardness);
        easing_falls(share(n, h), 1 as real);
    }
    if h < f && f < 1 as real {
        the_falloff_is_a_smooth_step(ops, round, far, hardness);
        easing_falls(share(f, h), 1 as real);
        easing_falls(0 as real, share(f, h));
    }
    if h < n && f < 1 as real {
        assert(share(n, h) <= share(f, h) && (n < f ==> share(n, h) < share(f, h))) by (nonlinear_arith)
            requires
                n <= f,
                h < 1 as real,
        ;
        easing_falls(share(n, h), share(f, h));
    }
    meaning::values_are_ordered(near, scalar::ZERO);
    meaning::values_are_ordered(far, scalar::ZERO);
    meaning::values_are_ordered(scalar::ONE, near);
    meaning::values_are_ordered(scalar::ONE, far);
    meaning::values_are_ordered(near, hardness);
    meaning::values_are_ordered(far, hardness);
    meaning::values_are_ordered(hardness, scalar::ZERO);
    meaning::values_are_ordered(hardness, brush::HARDEST);
    assert(scalar::finite(a) && scalar::finite(b));
    meaning::values_are_ordered(b, a);
    meaning::values_are_ordered(scalar::ZERO, b);
    meaning::values_are_ordered(a, scalar::ONE);
}

/// The falloff meets full strength at the core and none at the edge, however its share of the way
/// was rounded: a share that comes to nothing gives full strength, a whole one none.
pub proof fn the_falloff_joins_both_ends<O: Arithmetic>(
    ops: &O,
    round: spec_fn(real) -> u32,
    distance: u32,
    hardness: u32,
)
    requires
        rounds(ops, round),
        scalar::finite(distance),
        scalar::finite(hardness),
        (0 as real) <= value(hardness) <= value(brush::HARDEST),
        value(hardness) < value(distance) < 1 as real,
    ensures
        ({
            let share = ops.spec_quotient(
                ops.spec_difference(distance, hardness),
                ops.spec_difference(scalar::ONE, hardness),
            );
            let weight = brush::falloff_of(ops, distance, hardness);
            &&& scalar::le(share, scalar::ZERO) ==> scalar::same(weight, scalar::ONE)
            &&& scalar::le(scalar::ONE, share) ==> scalar::same(weight, scalar::ZERO)
        }),
{
    meaning::constants_mean_what_they_say();
    the_hardest_core_stops_short_of_the_edge();
    meaning::values_are_ordered(distance, scalar::ZERO);
    meaning::values_are_ordered(scalar::ONE, distance);
    meaning::values_are_ordered(distance, hardness);
    meaning::values_are_ordered(brush::HARDEST, hardness);
    meaning::values_are_ordered(brush::HARDEST, scalar::ONE);
    meaning::values_are_ordered(hardness, scalar::ZERO);
    assert(0 as real * (0 as real) == 0 as real) by (nonlinear_arith);
    assert(fits(value(scalar::ZERO)) && fits(value(scalar::ONE)) && fits(value(scalar::TWO))
        && fits(value(scalar::THREE)));
    let share = ops.spec_quotient(
        ops.spec_difference(distance, hardness),
        ops.spec_difference(scalar::ONE, hardness),
    );
    let t = scalar::clamped(share, scalar::ZERO, scalar::ONE);
    if scalar::le(share, scalar::ZERO) {
        meaning::values_are_ordered(t, scalar::ZERO);
        assert(eased(0 as real) == 1 as real) by (nonlinear_arith);
        assert(0 as real * (0 as real) * (3 as real - 2 as real * (0 as real)) == 0 as real)
            by (nonlinear_arith);
        lemma_eased(ops, round, t);
        meaning::values_are_ordered(brush::falloff_of(ops, distance, hardness), scalar::ONE);
    }
    if scalar::le(scalar::ONE, share) {
        meaning::values_are_ordered(t, scalar::ONE);
        assert(eased(1 as real) == 0 as real) by (nonlinear_arith);
        assert(1 as real * (1 as real) == 1 as real) by (nonlinear_arith);
        assert(1 as real * (1 as real) * (3 as real - 2 as real * (1 as real)) == 1 as real)
            by (nonlinear_arith);
        assert(3 as real - 2 as real * (1 as real) == 1 as real);
        lemma_eased(ops, round, t);
        meaning::values_are_ordered(brush::falloff_of(ops, distance, hardness), scalar::ZERO);
    }
}

/// The weight of a brush at a position is its falloff at the share that the distance from its
/// center has of its radius.
pub proof fn a_weight_goes_by_the_share_of_the_radius<O: Arithmetic>(
    ops: &O,
    round: spec_fn(real) -> u32,
    settings: BrushSettings,
    center: Point,
    position: Point,
    away: real,
    share: u32,
)
    requires
        rounds(ops, round),
        center.finite(),
        position.finite(),
        space::apart(place(position), place(center), away),
        scalar::finite(settings.radius),
        value(settings.radius) > 0 as real,
        scalar::finite(share),
        value(share) > 0 as real,
        value(share) * value(settings.radius) == away,
    ensures
        brush::weight_at(ops, settings, center, position) == brush::falloff_of(
            ops,
            share,
            settings.falloff,
        ),
{
    space::distances_are_lengths(ops, round, position, center, away);
    let distance = arithmetic::spec_distance(ops, position, center);
    meaning::lemma_quotient(ops, round, distance, settings.radius);
    let found = ops.spec_quotient(distance, settings.radius);
    let r = value(settings.radius);
    let s = value(share);
    assert(away / r == s) by (nonlinear_arith)
        requires
            s * r == away,
            r > 0 as real,
    ;
    assert(fits(s));
    meaning::constants_mean_what_they_say();
    meaning::values_are_ordered(found, share);
    meaning::values_are_ordered(scalar::ZERO, share);
    assert(found == share);
}

} // verus!
