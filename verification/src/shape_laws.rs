//! What rays, boxes and triangles have to do with each other, in numbers.
use crate::arithmetic;
use crate::arithmetic::Arithmetic;
use crate::dab_laws;
use crate::meaning;
use crate::meaning::{fits, rounds, value};
use crate::scalar;
use crate::scalar::Point;
use crate::shapes;
use crate::space;
use crate::space::{
    added, holds, inner, inner_fits, outer, outer_fits, place, scaled, subtracted,
};
use vstd::prelude::*;

verus! {

/// What a ray has to do with a triangle: times the determinant, the way from the first corner to the
/// origin is a combination of the two sides and the direction.
proof fn lemma_cramer(
    p: (real, real, real),
    q: (real, real, real),
    d: (real, real, real),
    o: (real, real, real),
)
    ensures
        inner(p, outer(d, q)) * o.0 == inner(o, outer(d, q)) * p.0 + inner(d, outer(o, p)) * q.0
            - inner(q, outer(o, p)) * d.0,
        inner(p, outer(d, q)) * o.1 == inner(o, outer(d, q)) * p.1 + inner(d, outer(o, p)) * q.1
            - inner(q, outer(o, p)) * d.1,
        inner(p, outer(d, q)) * o.2 == inner(o, outer(d, q)) * p.2 + inner(d, outer(o, p)) * q.2
            - inner(q, outer(o, p)) * d.2,
{
    let n = outer(d, q);
    let m = outer(o, p);
    lemma_outer_of_outer(n, o, p);
    lemma_outer_of_outer(m, q, d);
    lemma_inner_turns(n, p);
    lemma_inner_turns(n, o);
    lemma_inner_turns(m, d);
    lemma_inner_turns(m, q);
    let r = outer(q, d);
    lemma_opposed(d.1, q.2, q.1, d.2);
    lemma_opposed(d.2, q.0, q.2, d.0);
    lemma_opposed(d.0, q.1, q.0, d.1);
    assert(r == (-n.0, -n.1, -n.2));
    lemma_opposite_outer(m.1, n.2, n.1, m.2);
    lemma_opposite_outer(m.2, n.0, n.2, m.0);
    lemma_opposite_outer(m.0, n.1, n.0, m.1);
    assert(outer(m, r) == outer(n, m));
    let (det, x, y, z) = (inner(p, n), inner(o, n), inner(d, m), inner(q, m));
    lemma_exchange(o.0, det);
    lemma_exchange(o.1, det);
    lemma_exchange(o.2, det);
    lemma_exchange(p.0, x);
    lemma_exchange(p.1, x);
    lemma_exchange(p.2, x);
    lemma_exchange(q.0, y);
    lemma_exchange(q.1, y);
    lemma_exchange(q.2, y);
    lemma_exchange(d.0, z);
    lemma_exchange(d.1, z);
    lemma_exchange(d.2, z);
}

proof fn lemma_exchange(a: real, b: real)
    ensures
        a * b == b * a,
{
    assert(a * b == b * a) by (nonlinear_arith);
}

proof fn lemma_opposed(a: real, b: real, c: real, d: real)
    ensures
        c * d - a * b == -(a * b - c * d),
{
}

/// `m x -n` is `n x m`, coordinate by coordinate.
proof fn lemma_opposite_outer(a: real, b: real, c: real, d: real)
    ensures
        a * -b - (-c) * d == c * d - a * b,
{
    assert(a * -b == -(a * b)) by (nonlinear_arith);
    assert((-c) * d == -(c * d)) by (nonlinear_arith);
}

pub proof fn lemma_inner_turns(a: (real, real, real), b: (real, real, real))
    ensures
        inner(a, b) == inner(b, a),
{
    lemma_exchange(a.0, b.0);
    lemma_exchange(a.1, b.1);
    lemma_exchange(a.2, b.2);
}

/// One coordinate of an outer product with an outer product.
proof fn lemma_one_of_outer(
    x: real,
    y: real,
    n0: real,
    x0: real,
    y0: real,
    n1: real,
    x1: real,
    y1: real,
    n2: real,
    x2: real,
    y2: real,
)
    requires
        x == x0,
        y == y0,
    ensures
        n1 * (x0 * y1 - y0 * x1) - (x2 * y0 - y2 * x0) * n2 == x * (n0 * y0 + n1 * y1 + n2 * y2) - y
            * (n0 * x0 + n1 * x1 + n2 * x2),
{
    assert(n1 * (x0 * y1 - y0 * x1) == n1 * (x0 * y1) - n1 * (y0 * x1)) by (nonlinear_arith);
    assert((x2 * y0 - y2 * x0) * n2 == x2 * y0 * n2 - y2 * x0 * n2) by (nonlinear_arith);
    let (a, b, c) = (n0 * y0, n1 * y1, n2 * y2);
    assert(x0 * (a + b + c) == x0 * a + x0 * b + x0 * c) by (nonlinear_arith);
    let (e, f, g) = (n0 * x0, n1 * x1, n2 * x2);
    assert(y0 * (e + f + g) == y0 * e + y0 * f + y0 * g) by (nonlinear_arith);
    assert(x0 * (n0 * y0) == y0 * (n0 * x0)) by (nonlinear_arith);
    assert(n1 * (x0 * y1) == x0 * (n1 * y1)) by (nonlinear_arith);
    assert(n1 * (y0 * x1) == y0 * (n1 * x1)) by (nonlinear_arith);
    assert(x2 * y0 * n2 == y0 * (n2 * x2)) by (nonlinear_arith);
    assert(y2 * x0 * n2 == x0 * (n2 * y2)) by (nonlinear_arith);
}

/// The outer product with an outer product lies in the plane of its factors.
proof fn lemma_outer_of_outer(n: (real, real, real), x: (real, real, real), y: (real, real, real))
    ensures
        outer(n, outer(x, y)) == subtracted(scaled(x, inner(n, y)), scaled(y, inner(n, x))),
{
    lemma_one_of_outer(x.0, y.0, n.0, x.0, y.0, n.1, x.1, y.1, n.2, x.2, y.2);
    lemma_one_of_outer(x.1, y.1, n.1, x.1, y.1, n.2, x.2, y.2, n.0, x.0, y.0);
    lemma_one_of_outer(x.2, y.2, n.2, x.2, y.2, n.0, x.0, y.0, n.1, x.1, y.1);
}

/// One coordinate of that, divided by the determinant.
proof fn lemma_divided(det: real, o: real, v: real, p: real, w: real, q: real, t: real, d: real)
    requires
        det != 0 as real,
        det * o == v * p + w * q - t * d,
    ensures
        o == v * (1 as real / det) * p + w * (1 as real / det) * q - t * (1 as real / det) * d,
{
    let i = 1 as real / det;
    assert(det * i == 1 as real) by (nonlinear_arith)
        requires
            det != 0 as real,
            i == 1 as real / det,
    ;
    let e = det * i;
    assert(o * e == o) by (nonlinear_arith)
        requires
            e == 1 as real,
    ;
    assert(o * (det * i) == det * o * i) by (nonlinear_arith);
    let (a, b, c) = (v * p, w * q, t * d);
    assert((a + b - c) * i == a * i + b * i - c * i) by (nonlinear_arith);
    assert(v * p * i == v * i * p) by (nonlinear_arith);
    assert(w * q * i == w * i * q) by (nonlinear_arith);
    assert(t * d * i == t * i * d) by (nonlinear_arith);
}

/// The weights of the last two corners where a ray meets the plane of a triangle, and how far along
/// it does.
pub open spec fn crossing(
    origin: (real, real, real),
    direction: (real, real, real),
    a: (real, real, real),
    b: (real, real, real),
    c: (real, real, real),
) -> (real, real, real) {
    let (ab, ac, o) = (subtracted(b, a), subtracted(c, a), subtracted(origin, a));
    let inverse = 1 as real / inner(ab, outer(direction, ac));
    (
        inner(o, outer(direction, ac)) * inverse,
        inner(direction, outer(o, ab)) * inverse,
        inner(ac, outer(o, ab)) * inverse,
    )
}

/// Where a ray crosses the plane of a triangle it is at the corners' weighted average.
pub proof fn a_crossing_is_on_the_ray_and_the_plane(
    origin: (real, real, real),
    direction: (real, real, real),
    a: (real, real, real),
    b: (real, real, real),
    c: (real, real, real),
)
    requires
        inner(subtracted(b, a), outer(direction, subtracted(c, a))) != 0 as real,
    ensures
        ({
            let (v, w, t) = crossing(origin, direction, a, b, c);
            added(origin, scaled(direction, t)) == added(
                scaled(a, 1 as real - v - w),
                added(scaled(b, v), scaled(c, w)),
            )
        }),
{
    let (p, q, o) = (subtracted(b, a), subtracted(c, a), subtracted(origin, a));
    let d = direction;
    let det = inner(p, outer(d, q));
    let (x, y, z) = (inner(o, outer(d, q)), inner(d, outer(o, p)), inner(q, outer(o, p)));
    lemma_cramer(p, q, d, o);
    lemma_divided(det, o.0, x, p.0, y, q.0, z, d.0);
    lemma_divided(det, o.1, x, p.1, y, q.1, z, d.1);
    lemma_divided(det, o.2, x, p.2, y, q.2, z, d.2);
    let (v, w, t) = crossing(origin, direction, a, b, c);
    lemma_weighted(origin.0, a.0, b.0, c.0, d.0, v, w, t);
    lemma_weighted(origin.1, a.1, b.1, c.1, d.1, v, w, t);
    lemma_weighted(origin.2, a.2, b.2, c.2, d.2, v, w, t);
}

proof fn lemma_weighted(o: real, a: real, b: real, c: real, d: real, v: real, w: real, t: real)
    requires
        o - a == v * (b - a) + w * (c - a) - t * d,
    ensures
        o + d * t == a * (1 as real - v - w) + (b * v + c * w),
{
    assert(v * (b - a) == b * v - a * v) by (nonlinear_arith);
    assert(w * (c - a) == c * w - a * w) by (nonlinear_arith);
    assert(a * (1 as real - v - w) == a - a * v - a * w) by (nonlinear_arith);
    assert(d * t == t * d) by (nonlinear_arith);
}

/// Whether where a ray crosses a triangle is worked out without rounding.
pub open spec fn crosses(
    origin: (real, real, real),
    direction: (real, real, real),
    a: (real, real, real),
    b: (real, real, real),
    c: (real, real, real),
) -> bool {
    let (ab, ac, o) = (subtracted(b, a), subtracted(c, a), subtracted(origin, a));
    let across = outer(direction, ac);
    let turned = outer(o, ab);
    let (v, w, t) = crossing(origin, direction, a, b, c);
    &&& inner(ab, across) != 0 as real
    &&& holds(ab) && holds(ac) && holds(o)
    &&& outer_fits(direction, ac) && outer_fits(o, ab)
    &&& inner_fits(ab, across) && inner_fits(o, across)
    &&& inner_fits(direction, turned) && inner_fits(ac, turned)
    &&& fits(1 as real / inner(ab, across))
    &&& fits(v) && fits(w) && fits(t)
    &&& fits(1 as real - v) && fits(1 as real - v - w) && fits(v + w)
}

/// Whether a ray is flat over a triangle.
spec fn flat<O: Arithmetic>(ops: &O, direction: Point, a: Point, b: Point, c: Point) -> bool {
    let ab = arithmetic::spec_minus(ops, b, a);
    let ac = arithmetic::spec_minus(ops, c, a);
    let determinant = arithmetic::spec_dot(ops, ab, arithmetic::spec_cross(ops, direction, ac));
    scalar::le(
        scalar::magnitude(determinant) as u32,
        ops.spec_product(
            ops.spec_product(arithmetic::spec_length(ops, ab), arithmetic::spec_length(ops, ac)),
            shapes::FLAT_RAY_EPSILON,
        ),
    )
}

/// What is made of weights and a distance.
spec fn judged(flat: bool, found: (u32, u32, u32, u32, u32)) -> Option<(u32, Point)> {
    let (v, w, distance, u, both) = found;
    if flat || !scalar::le(shapes::WEIGHT_LOW, v) || !scalar::le(v, shapes::WEIGHT_HIGH)
        || scalar::lt(w, shapes::WEIGHT_LOW) || scalar::lt(shapes::WEIGHT_HIGH, both) || scalar::lt(
        distance,
        scalar::ZERO,
    ) || !scalar::finite(distance) {
        None
    } else {
        Some((distance, Point { x: u, y: v, z: w }))
    }
}

/// The weights and the distance as they are worked out.
spec fn worked<O: Arithmetic>(
    ops: &O,
    origin: Point,
    direction: Point,
    a: Point,
    b: Point,
    c: Point,
) -> (u32, u32, u32, u32, u32) {
    let ab = arithmetic::spec_minus(ops, b, a);
    let ac = arithmetic::spec_minus(ops, c, a);
    let perpendicular = arithmetic::spec_cross(ops, direction, ac);
    let inverse = ops.spec_quotient(scalar::ONE, arithmetic::spec_dot(ops, ab, perpendicular));
    let offset = arithmetic::spec_minus(ops, origin, a);
    let cross = arithmetic::spec_cross(ops, offset, ab);
    let v = ops.spec_product(arithmetic::spec_dot(ops, offset, perpendicular), inverse);
    let w = ops.spec_product(arithmetic::spec_dot(ops, direction, cross), inverse);
    (
        v,
        w,
        ops.spec_product(arithmetic::spec_dot(ops, ac, cross), inverse),
        ops.spec_difference(ops.spec_difference(scalar::ONE, v), w),
        ops.spec_sum(v, w),
    )
}

proof fn lemma_judged<O: Arithmetic>(
    ops: &O,
    origin: Point,
    direction: Point,
    a: Point,
    b: Point,
    c: Point,
)
    ensures
        shapes::meets(ops, origin, direction, a, b, c) == judged(
            flat(ops, direction, a, b, c),
            worked(ops, origin, direction, a, b, c),
        ),
{
}

#[verifier::spinoff_prover]
#[verifier::rlimit(40)]
proof fn lemma_meets<O: Arithmetic>(
    ops: &O,
    round: spec_fn(real) -> u32,
    origin: Point,
    direction: Point,
    a: Point,
    b: Point,
    c: Point,
)
    requires
        rounds(ops, round),
        origin.finite() && direction.finite() && a.finite() && b.finite() && c.finite(),
        crosses(place(origin), place(direction), place(a), place(b), place(c)),
    ensures
        ({
            let found = worked(ops, origin, direction, a, b, c);
            let ab = arithmetic::spec_minus(ops, b, a);
            let ac = arithmetic::spec_minus(ops, c, a);
            let perpendicular = arithmetic::spec_cross(ops, direction, ac);
            let determinant = arithmetic::spec_dot(ops, ab, perpendicular);
            let (v, w, t) = crossing(
                place(origin),
                place(direction),
                place(a),
                place(b),
                place(c),
            );
            &&& ab.finite() && ac.finite()
            &&& place(ab) == subtracted(place(b), place(a))
            &&& place(ac) == subtracted(place(c), place(a))
            &&& scalar::finite(determinant)
            &&& value(determinant) == inner(
                subtracted(place(b), place(a)),
                outer(place(direction), subtracted(place(c), place(a))),
            )
            &&& scalar::finite(found.0) && value(found.0) == v
            &&& scalar::finite(found.1) && value(found.1) == w
            &&& scalar::finite(found.2) && value(found.2) == t
            &&& scalar::finite(found.3) && value(found.3) == 1 as real - v - w
            &&& scalar::finite(found.4) && value(found.4) == v + w
        }),
{
    meaning::constants_mean_what_they_say();
    space::differences_subtract_places(ops, round, b, a);
    space::differences_subtract_places(ops, round, c, a);
    space::differences_subtract_places(ops, round, origin, a);
    let ab = arithmetic::spec_minus(ops, b, a);
    let ac = arithmetic::spec_minus(ops, c, a);
    let offset = arithmetic::spec_minus(ops, origin, a);
    space::crosses_are_outer_products(ops, round, direction, ac);
    let perpendicular = arithmetic::spec_cross(ops, direction, ac);
    space::dots_are_inner_products(ops, round, ab, perpendicular);
    let determinant = arithmetic::spec_dot(ops, ab, perpendicular);
    meaning::lemma_quotient(ops, round, scalar::ONE, determinant);
    let inverse = ops.spec_quotient(scalar::ONE, determinant);
    space::dots_are_inner_products(ops, round, offset, perpendicular);
    space::crosses_are_outer_products(ops, round, offset, ab);
    let cross = arithmetic::spec_cross(ops, offset, ab);
    space::dots_are_inner_products(ops, round, direction, cross);
    space::dots_are_inner_products(ops, round, ac, cross);
    meaning::lemma_product(ops, round, arithmetic::spec_dot(ops, offset, perpendicular), inverse);
    meaning::lemma_product(ops, round, arithmetic::spec_dot(ops, direction, cross), inverse);
    meaning::lemma_product(ops, round, arithmetic::spec_dot(ops, ac, cross), inverse);
    let v = ops.spec_product(arithmetic::spec_dot(ops, offset, perpendicular), inverse);
    let w = ops.spec_product(arithmetic::spec_dot(ops, direction, cross), inverse);
    let t = ops.spec_product(arithmetic::spec_dot(ops, ac, cross), inverse);
    meaning::lemma_difference(ops, round, scalar::ONE, v);
    meaning::lemma_difference(ops, round, ops.spec_difference(scalar::ONE, v), w);
    meaning::lemma_sum(ops, round, v, w);
}

/// Where a ray hits a triangle, the point that far along the ray is the average of the corners by the
/// weights that are given, which add up to one; and it is not behind the origin.
pub proof fn a_hit_is_on_the_ray_and_the_triangle<O: Arithmetic>(
    ops: &O,
    round: spec_fn(real) -> u32,
    origin: Point,
    direction: Point,
    a: Point,
    b: Point,
    c: Point,
)
    requires
        rounds(ops, round),
        origin.finite() && direction.finite() && a.finite() && b.finite() && c.finite(),
        crosses(place(origin), place(direction), place(a), place(b), place(c)),
    ensures
        shapes::meets(ops, origin, direction, a, b, c) matches Some((distance, weights)) ==> {
            &&& scalar::finite(distance) && weights.finite()
            &&& value(distance) >= 0 as real
            &&& value(weights.x) + value(weights.y) + value(weights.z) == 1 as real
            &&& added(place(origin), scaled(place(direction), value(distance))) == added(
                scaled(place(a), value(weights.x)),
                added(scaled(place(b), value(weights.y)), scaled(place(c), value(weights.z))),
            )
        },
{
    meaning::constants_mean_what_they_say();
    lemma_meets(ops, round, origin, direction, a, b, c);
    lemma_judged(ops, origin, direction, a, b, c);
    let found = worked(ops, origin, direction, a, b, c);
    a_crossing_is_on_the_ray_and_the_plane(
        place(origin),
        place(direction),
        place(a),
        place(b),
        place(c),
    );
    meaning::values_are_ordered(found.2, scalar::ZERO);
}

/// The tolerances of a hit are a millionth, and a ray is flat over a triangle at a ten-millionth.
pub proof fn hits_go_by_these_numbers()
    ensures
        scalar::finite(shapes::WEIGHT_LOW) && scalar::finite(shapes::WEIGHT_HIGH),
        scalar::finite(shapes::FLAT_RAY_EPSILON),
        value(shapes::WEIGHT_LOW) < 0 as real,
        value(shapes::WEIGHT_HIGH) > 1 as real,
        value(shapes::FLAT_RAY_EPSILON) > 0 as real,
{
    meaning::constants_mean_what_they_say();
    meaning::values_are_ordered(shapes::WEIGHT_LOW, scalar::ZERO);
    meaning::values_are_ordered(scalar::ONE, shapes::WEIGHT_HIGH);
    meaning::values_are_ordered(scalar::ZERO, shapes::FLAT_RAY_EPSILON);
}

proof fn lemma_not_flat<O: Arithmetic>(
    ops: &O,
    round: spec_fn(real) -> u32,
    direction: Point,
    a: Point,
    b: Point,
    c: Point,
    first: real,
    second: real,
)
    requires
        rounds(ops, round),
        ({
            let ab = arithmetic::spec_minus(ops, b, a);
            let ac = arithmetic::spec_minus(ops, c, a);
            let determinant = arithmetic::spec_dot(
                ops,
                ab,
                arithmetic::spec_cross(ops, direction, ac),
            );
            &&& ab.finite() && ac.finite() && scalar::finite(determinant)
            &&& inner_fits(place(ab), place(ab)) && inner_fits(place(ac), place(ac))
            &&& first >= 0 as real && first * first == inner(place(ab), place(ab)) && fits(first)
            &&& second >= 0 as real && second * second == inner(place(ac), place(ac)) && fits(
                second,
            )
            &&& fits(first * second)
            &&& fits(first * second * value(shapes::FLAT_RAY_EPSILON))
            &&& dab_laws::size_of(value(determinant)) > first * second * value(
                shapes::FLAT_RAY_EPSILON,
            )
        }),
    ensures
        !flat(ops, direction, a, b, c),
{
    hits_go_by_these_numbers();
    let ab = arithmetic::spec_minus(ops, b, a);
    let ac = arithmetic::spec_minus(ops, c, a);
    space::lengths_are_roots_of_squares(ops, round, ab, first);
    space::lengths_are_roots_of_squares(ops, round, ac, second);
    let (l, m) = (arithmetic::spec_length(ops, ab), arithmetic::spec_length(ops, ac));
    meaning::lemma_product(ops, round, l, m);
    meaning::lemma_product(ops, round, ops.spec_product(l, m), shapes::FLAT_RAY_EPSILON);
    let limit = ops.spec_product(ops.spec_product(l, m), shapes::FLAT_RAY_EPSILON);
    let determinant = arithmetic::spec_dot(ops, ab, arithmetic::spec_cross(ops, direction, ac));
    dab_laws::magnitudes_are_sizes(determinant);
    meaning::values_are_ordered(scalar::magnitude(determinant) as u32, limit);
}

/// A ray hits every triangle that it crosses ahead of its origin, inside or at the border, unless it
/// is flat over it.
pub proof fn a_ray_hits_what_it_crosses<O: Arithmetic>(
    ops: &O,
    round: spec_fn(real) -> u32,
    origin: Point,
    direction: Point,
    a: Point,
    b: Point,
    c: Point,
    first: real,
    second: real,
)
    requires
        rounds(ops, round),
        origin.finite() && direction.finite() && a.finite() && b.finite() && c.finite(),
        crosses(place(origin), place(direction), place(a), place(b), place(c)),
        space::apart(place(b), place(a), first),
        space::apart(place(c), place(a), second),
        fits(first * second),
        fits(first * second * value(shapes::FLAT_RAY_EPSILON)),
        dab_laws::size_of(
            inner(
                subtracted(place(b), place(a)),
                outer(place(direction), subtracted(place(c), place(a))),
            ),
        ) > first * second * value(shapes::FLAT_RAY_EPSILON),
        ({
            let (v, w, t) = crossing(
                place(origin),
                place(direction),
                place(a),
                place(b),
                place(c),
            );
            v >= 0 as real && w >= 0 as real && v + w <= 1 as real && t >= 0 as real
        }),
    ensures
        shapes::meets(ops, origin, direction, a, b, c) matches Some((distance, weights)) && (
        value(weights.y), value(weights.z), value(distance)) == crossing(
            place(origin),
            place(direction),
            place(a),
            place(b),
            place(c),
        ),
{
    meaning::constants_mean_what_they_say();
    hits_go_by_these_numbers();
    lemma_meets(ops, round, origin, direction, a, b, c);
    lemma_judged(ops, origin, direction, a, b, c);
    let found = worked(ops, origin, direction, a, b, c);
    let (v, w, t, u, both) = found;
    lemma_not_flat(ops, round, direction, a, b, c, first, second);
    meaning::values_are_ordered(shapes::WEIGHT_LOW, v);
    meaning::values_are_ordered(v, shapes::WEIGHT_HIGH);
    meaning::values_are_ordered(w, shapes::WEIGHT_LOW);
    meaning::values_are_ordered(shapes::WEIGHT_HIGH, both);
    meaning::values_are_ordered(t, scalar::ZERO);
}

} // verus!
