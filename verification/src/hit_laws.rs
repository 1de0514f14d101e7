//! How boxes are entered, how hits are shaded and where a stroke goes, in numbers.
use crate::arithmetic;
use crate::arithmetic::Arithmetic;
use crate::dab_laws;
use crate::input::ScreenPoint;
use crate::meaning;
use crate::meaning::{fits, rounds, value};
use crate::query::Shading;
use crate::scalar;
use crate::scalar::Point;
use crate::shapes;
use crate::space;
use crate::space::{added, holds, inner, inner_fits, place, scaled, subtracted};
use crate::stroke;
use crate::voxel_remesh::MaskBlend;
use vstd::prelude::*;

verus! {

/// How far a number lies outside an interval.
pub open spec fn outside_by(number: real, low: real, high: real) -> real {
    if number < low {
        low - number
    } else if number > high {
        number - high
    } else {
        0 as real
    }
}

/// How far a place lies outside a box, along each axis.
pub open spec fn outside_box(
    at: (real, real, real),
    min: (real, real, real),
    max: (real, real, real),
) -> (real, real, real) {
    (
        outside_by(at.0, min.0, max.0),
        outside_by(at.1, min.1, max.1),
        outside_by(at.2, min.2, max.2),
    )
}

proof fn lemma_outside<O: Arithmetic>(
    ops: &O,
    round: spec_fn(real) -> u32,
    number: u32,
    low: u32,
    high: u32,
)
    requires
        rounds(ops, round),
        scalar::finite(number) && scalar::finite(low) && scalar::finite(high),
        value(low) <= value(high),
        fits(value(low) - value(number)),
        fits(value(number) - value(high)),
    ensures
        ({
            let below = scalar::greatest(ops.spec_difference(low, number), scalar::ZERO);
            let above = scalar::greatest(ops.spec_difference(number, high), scalar::ZERO);
            let away = ops.spec_sum(below, above);
            scalar::finite(away) && value(away) == outside_by(
                value(number),
                value(low),
                value(high),
            )
        }),
        fits(outside_by(value(number), value(low), value(high))),
{
    meaning::constants_mean_what_they_say();
    meaning::lemma_difference(ops, round, low, number);
    meaning::lemma_difference(ops, round, number, high);
    let (a, b) = (ops.spec_difference(low, number), ops.spec_difference(number, high));
    dab_laws::extremes_bound_both(a, scalar::ZERO);
    dab_laws::extremes_bound_both(b, scalar::ZERO);
    let (below, above) = (scalar::greatest(a, scalar::ZERO), scalar::greatest(b, scalar::ZERO));
    assert(fits(value(below)) && fits(value(above)));
    assert(value(below) + value(above) == outside_by(value(number), value(low), value(high)));
    assert(value(below) == 0 as real || value(above) == 0 as real);
    meaning::lemma_sum(ops, round, below, above);
}

/// The square of how far a point is from a box is that of how far it lies outside it along the three
/// axes; a point inside is at no distance.
pub proof fn a_box_is_as_far_as_its_nearest_side<O: Arithmetic>(
    ops: &O,
    round: spec_fn(real) -> u32,
    point: Point,
    min: Point,
    max: Point,
)
    requires
        rounds(ops, round),
        point.finite() && min.finite() && max.finite(),
        value(min.x) <= value(max.x) && value(min.y) <= value(max.y) && value(min.z) <= value(
            max.z,
        ),
        holds(subtracted(place(min), place(point))),
        holds(subtracted(place(point), place(max))),
        ({
            let away = outside_box(place(point), place(min), place(max));
            inner_fits(away, away)
        }),
    ensures
        scalar::finite(shapes::away_squared(ops, point, min, max)),
        ({
            let away = outside_box(place(point), place(min), place(max));
            value(shapes::away_squared(ops, point, min, max)) == inner(away, away)
        }),
{
    lemma_outside(ops, round, point.x, min.x, max.x);
    lemma_outside(ops, round, point.y, min.y, max.y);
    lemma_outside(ops, round, point.z, min.z, max.z);
    let below = arithmetic::spec_minus(ops, min, point).greatest(arithmetic::origin());
    let above = arithmetic::spec_minus(ops, point, max).greatest(arithmetic::origin());
    let away = arithmetic::spec_plus(ops, below, above);
    space::dots_are_inner_products(ops, round, away, away);
}

/// Whether a time lies in a span whose end may be open.
pub open spec fn during(time: real, near: u32, far: u32) -> bool {
    &&& value(near) <= time
    &&& far == scalar::INFINITY || (scalar::finite(far) && time <= value(far))
}

/// A ray that is not parallel to a slab is between its sides for a span of time, and what is left of
/// a span is exactly what both have in common.
pub proof fn a_slab_leaves_the_times_between_its_sides<O: Arithmetic>(
    ops: &O,
    round: spec_fn(real) -> u32,
    near: u32,
    far: u32,
    origin: u32,
    direction: u32,
    min: u32,
    max: u32,
    time: real,
)
    requires
        rounds(ops, round),
        scalar::finite(near) && (far == scalar::INFINITY || scalar::finite(far)),
        scalar::finite(origin) && scalar::finite(direction) && scalar::finite(min)
            && scalar::finite(max),
        scalar::finite(shapes::PARALLEL_EPSILON),
        value(shapes::PARALLEL_EPSILON) > 0 as real,
        dab_laws::size_of(value(direction)) >= value(shapes::PARALLEL_EPSILON),
        value(min) <= value(max),
        fits(1 as real / value(direction)),
        fits(value(min) - value(origin)) && fits(value(max) - value(origin)),
        fits((value(min) - value(origin)) * (1 as real / value(direction))),
        fits((value(max) - value(origin)) * (1 as real / value(direction))),
    ensures
        ({
            let there = value(origin) + time * value(direction);
            let common = during(time, near, far) && value(min) <= there <= value(max);
            match shapes::slab(ops, Some((near, far)), origin, direction, min, max) {
                None => !common,
                Some((entry, exit)) => {
                    &&& scalar::finite(entry) && scalar::finite(exit)
                    &&& value(entry) <= value(exit)
                    &&& during(time, entry, exit) <==> common
                },
            }
        }),
{
    meaning::constants_mean_what_they_say();
    dab_laws::magnitudes_are_sizes(direction);
    meaning::values_are_ordered(
        scalar::magnitude(direction) as u32,
        shapes::PARALLEL_EPSILON,
    );
    meaning::lemma_quotient(ops, round, scalar::ONE, direction);
    let inverse = ops.spec_quotient(scalar::ONE, direction);
    meaning::lemma_difference(ops, round, min, origin);
    meaning::lemma_difference(ops, round, max, origin);
    meaning::lemma_product(ops, round, ops.spec_difference(min, origin), inverse);
    meaning::lemma_product(ops, round, ops.spec_difference(max, origin), inverse);
    let low = ops.spec_product(ops.spec_difference(min, origin), inverse);
    let high = ops.spec_product(ops.spec_difference(max, origin), inverse);
    meaning::values_are_ordered(high, low);
    let (o, d, a, b) = (value(origin), value(direction), value(min), value(max));
    lemma_reached(o, d, a, time);
    lemma_reached(o, d, b, time);
    lemma_reached(o, d, a, value(high));
    let (first, second) = if scalar::lt(high, low) {
        (high, low)
    } else {
        (low, high)
    };
    assert(value(first) <= time <= value(second) <==> a <= o + time * d <= b);
    dab_laws::extremes_bound_both(near, first);
    let entry = scalar::greatest(near, first);
    let exit = scalar::least(far, second);
    if scalar::finite(far) {
        dab_laws::extremes_bound_both(far, second);
    } else {
        assert(exit == second);
    }
    meaning::values_are_ordered(exit, entry);
}

/// When a ray gets to a coordinate: before, it is on the side it came from.
proof fn lemma_reached(o: real, d: real, a: real, time: real)
    requires
        d != 0 as real,
    ensures
        d > 0 as real ==> ((a - o) * (1 as real / d) <= time <==> a <= o + time * d),
        d < 0 as real ==> ((a - o) * (1 as real / d) <= time <==> a >= o + time * d),
        d > 0 as real ==> ((a - o) * (1 as real / d) >= time <==> a >= o + time * d),
        d < 0 as real ==> ((a - o) * (1 as real / d) >= time <==> a <= o + time * d),
{
    let i = 1 as real / d;
    let t = (a - o) * i;
    assert(d * i == 1 as real) by (nonlinear_arith)
        requires
            d != 0 as real,
            i == 1 as real / d,
    ;
    assert((a - o) * i * d == (a - o) * (d * i)) by (nonlinear_arith);
    let e = d * i;
    let w = a - o;
    assert(w * e == w) by (nonlinear_arith)
        requires
            e == 1 as real,
    ;
    assert(t * d == a - o);
    let gap = time - t;
    assert(gap * d == time * d - t * d) by (nonlinear_arith)
        requires
            gap == time - t,
    ;
    if d > 0 as real {
        assert(gap >= 0 as real <==> gap * d >= 0 as real) by (nonlinear_arith)
            requires
                d > 0 as real,
        ;
        assert(gap <= 0 as real <==> gap * d <= 0 as real) by (nonlinear_arith)
            requires
                d > 0 as real,
        ;
    } else {
        assert(gap >= 0 as real <==> gap * d <= 0 as real) by (nonlinear_arith)
            requires
                d < 0 as real,
        ;
        assert(gap <= 0 as real <==> gap * d >= 0 as real) by (nonlinear_arith)
            requires
                d < 0 as real,
        ;
    }
}

/// A mask inside a face is blended from its corners by their weights.
pub proof fn a_mask_is_blended_by_the_weights<O: Arithmetic>(
    ops: &O,
    round: spec_fn(real) -> u32,
    blend: MaskBlend,
)
    requires
        rounds(ops, round),
        scalar::finite(blend.a) && scalar::finite(blend.b) && scalar::finite(blend.c),
        blend.barycentric.finite(),
        inner_fits(
            (value(blend.a), value(blend.b), value(blend.c)),
            place(blend.barycentric),
        ),
    ensures
        scalar::finite(shapes::blended(ops, blend)),
        value(shapes::blended(ops, blend)) == value(blend.a) * value(blend.barycentric.x) + value(
            blend.b,
        ) * value(blend.barycentric.y) + value(blend.c) * value(blend.barycentric.z),
{
    let masks = Point { x: blend.a, y: blend.b, z: blend.c };
    space::dots_are_inner_products(ops, round, masks, blend.barycentric);
}

/// A hit is shaded by the normals of the corners, blended by their weights and brought to length one,
/// on the side that the ray comes from.
pub proof fn a_hit_is_shaded_towards_the_ray<O: Arithmetic>(
    ops: &O,
    round: spec_fn(real) -> u32,
    direction: Point,
    shading: Shading,
    length: real,
)
    requires
        rounds(ops, round),
        direction.finite(),
        shading.normals.0.finite() && shading.normals.1.finite() && shading.normals.2.finite(),
        shading.barycentric.finite(),
        ({
            let a = scaled(place(shading.normals.0), value(shading.barycentric.x));
            let b = scaled(place(shading.normals.1), value(shading.barycentric.y));
            let c = scaled(place(shading.normals.2), value(shading.barycentric.z));
            let mixed = added(added(a, b), c);
            &&& holds(a) && holds(b) && holds(c) && holds(added(a, b)) && holds(mixed)
            &&& space::has_unit(mixed, length)
            &&& inner_fits(scaled(mixed, 1 as real / length), place(direction))
        }),
    ensures
        ({
            let a = scaled(place(shading.normals.0), value(shading.barycentric.x));
            let b = scaled(place(shading.normals.1), value(shading.barycentric.y));
            let c = scaled(place(shading.normals.2), value(shading.barycentric.z));
            let unit = scaled(added(added(a, b), c), 1 as real / length);
            let normal = shapes::shaded(ops, direction, shading);
            &&& normal.finite()
            &&& inner(unit, place(direction)) <= 0 as real ==> place(normal) == unit
            &&& inner(unit, place(direction)) > 0 as real ==> place(normal) == (
                -unit.0,
                -unit.1,
                -unit.2,
            )
        }),
{
    meaning::constants_mean_what_they_say();
    let (na, nb, nc) = shading.normals;
    let weights = shading.barycentric;
    space::multiples_scale_places(ops, round, na, weights.x);
    space::multiples_scale_places(ops, round, nb, weights.y);
    space::multiples_scale_places(ops, round, nc, weights.z);
    let (a, b, c) = (
        arithmetic::spec_times(ops, na, weights.x),
        arithmetic::spec_times(ops, nb, weights.y),
        arithmetic::spec_times(ops, nc, weights.z),
    );
    space::sums_add_places(ops, round, a, b);
    space::sums_add_places(ops, round, arithmetic::spec_plus(ops, a, b), c);
    let mixed = arithmetic::spec_plus(ops, arithmetic::spec_plus(ops, a, b), c);
    space::units_point_along(ops, round, mixed, length);
    let unit = arithmetic::spec_unit(ops, mixed);
    space::dots_are_inner_products(ops, round, unit, direction);
    meaning::values_are_ordered(scalar::ZERO, arithmetic::spec_dot(ops, unit, direction));
    meaning::the_sign_is_the_sign(unit.x);
    meaning::the_sign_is_the_sign(unit.y);
    meaning::the_sign_is_the_sign(unit.z);
}

/// A place on a segment lies as much of its way along as the distance is of its length: a distance of
/// nothing is its start, and its whole length its end.
pub proof fn a_dab_lies_on_the_way<O: Arithmetic>(
    ops: &O,
    round: spec_fn(real) -> u32,
    from: ScreenPoint,
    segment: ScreenPoint,
    length: u32,
    distance: u32,
)
    requires
        rounds(ops, round),
        scalar::finite(from.x) && scalar::finite(from.y),
        scalar::finite(segment.x) && scalar::finite(segment.y),
        scalar::finite(length) && scalar::finite(distance),
        value(length) > 0 as real,
        fits(value(segment.x) / value(length)) && fits(value(segment.y) / value(length)),
        fits(value(segment.x) / value(length) * value(distance)),
        fits(value(segment.y) / value(length) * value(distance)),
        fits(value(from.x) + value(segment.x) / value(length) * value(distance)),
        fits(value(from.y) + value(segment.y) / value(length) * value(distance)),
    ensures
        ({
            let place = stroke::along(ops, from, segment, length, distance);
            &&& scalar::finite(place.x) && scalar::finite(place.y)
            &&& (value(place.x) - value(from.x)) * value(length) == value(segment.x) * value(
                distance,
            )
            &&& (value(place.y) - value(from.y)) * value(length) == value(segment.y) * value(
                distance,
            )
        }),
{
    lemma_along(ops, round, from.x, segment.x, length, distance);
    lemma_along(ops, round, from.y, segment.y, length, distance);
}

proof fn lemma_along<O: Arithmetic>(
    ops: &O,
    round: spec_fn(real) -> u32,
    from: u32,
    segment: u32,
    length: u32,
    distance: u32,
)
    requires
        rounds(ops, round),
        scalar::finite(from) && scalar::finite(segment),
        scalar::finite(length) && scalar::finite(distance),
        value(length) > 0 as real,
        fits(value(segment) / value(length)),
        fits(value(segment) / value(length) * value(distance)),
        fits(value(from) + value(segment) / value(length) * value(distance)),
    ensures
        ({
            let place = ops.spec_sum(
                from,
                ops.spec_product(ops.spec_quotient(segment, length), distance),
            );
            scalar::finite(place) && (value(place) - value(from)) * value(length) == value(segment)
                * value(distance)
        }),
{
    meaning::lemma_quotient(ops, round, segment, length);
    let part = ops.spec_quotient(segment, length);
    meaning::lemma_product(ops, round, part, distance);
    let way = ops.spec_product(part, distance);
    meaning::lemma_sum(ops, round, from, way);
    let (s, l, d) = (value(segment), value(length), value(distance));
    let q = s / l;
    assert(q * l == s) by (nonlinear_arith)
        requires
            q == s / l,
            l > 0 as real,
    ;
    assert(q * d * l == q * l * d) by (nonlinear_arith);
}

/// The next dab is due after the spacing, of at least one point, less what was gone since the last,
/// and never at once.
pub proof fn a_dab_is_due_after_the_spacing<O: Arithmetic>(
    ops: &O,
    round: spec_fn(real) -> u32,
    spacing: u32,
    since: u32,
)
    requires
        rounds(ops, round),
        scalar::finite(spacing) && scalar::finite(since),
        fits(
            if value(spacing) > 1 as real {
                value(spacing)
            } else {
                1 as real
            } - value(since),
        ),
    ensures
        ({
            let due = value(stroke::to_next_dab(ops, spacing, since));
            let step = if value(spacing) > 1 as real {
                value(spacing)
            } else {
                1 as real
            };
            &&& scalar::finite(stroke::to_next_dab(ops, spacing, since))
            &&& due >= value(scalar::EPSILON) && due >= step - value(since)
            &&& due == value(scalar::EPSILON) || due == step - value(since)
            &&& due > 0 as real
        }),
{
    meaning::constants_mean_what_they_say();
    dab_laws::extremes_bound_both(spacing, scalar::ONE);
    let step = scalar::greatest(spacing, scalar::ONE);
    meaning::lemma_difference(ops, round, step, since);
    let left = ops.spec_difference(step, since);
    dab_laws::extremes_bound_both(left, scalar::EPSILON);
    meaning::values_are_ordered(scalar::ZERO, scalar::EPSILON);
}

} // verus!
