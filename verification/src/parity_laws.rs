//! Where a ray crosses a triangle in double precision, in numbers.
use crate::scalar;
use crate::scalar::Point;
use crate::search::ParityRayIntersection;
use crate::shape_laws;
use crate::shape_laws::crossing;
use crate::space::{added, inner, outer, place, scaled, subtracted};
use crate::wide;
use crate::wide::{WideArithmetic, WidePoint};
use crate::wide_meaning;
use crate::wide_meaning::{wide_fits, wide_rounds, wide_value};
use vstd::prelude::*;

verus! {

pub open spec fn wide_finite_point(a: WidePoint) -> bool {
    scalar::wide_finite(a.x) && scalar::wide_finite(a.y) && scalar::wide_finite(a.z)
}

pub open spec fn wide_place(a: WidePoint) -> (real, real, real) {
    (wide_value(a.x), wide_value(a.y), wide_value(a.z))
}

pub open spec fn wide_holds(a: (real, real, real)) -> bool {
    wide_fits(a.0) && wide_fits(a.1) && wide_fits(a.2)
}

pub open spec fn wide_inner_fits(a: (real, real, real), b: (real, real, real)) -> bool {
    &&& wide_fits(a.0 * b.0) && wide_fits(a.1 * b.1) && wide_fits(a.2 * b.2)
    &&& wide_fits(a.0 * b.0 + a.1 * b.1)
    &&& wide_fits(inner(a, b))
}

pub open spec fn wide_outer_fits(a: (real, real, real), b: (real, real, real)) -> bool {
    &&& wide_fits(a.1 * b.2) && wide_fits(b.1 * a.2)
    &&& wide_fits(a.2 * b.0) && wide_fits(b.2 * a.0)
    &&& wide_fits(a.0 * b.1) && wide_fits(b.0 * a.1)
    &&& wide_holds(outer(a, b))
}

/// Widening keeps a point where it is.
pub proof fn widened_points_stay<W: WideArithmetic>(
    wide: &W,
    round: spec_fn(real) -> u64,
    a: Point,
)
    requires
        wide_rounds(wide, round),
        a.finite(),
    ensures
        wide_finite_point(wide::widened_point(wide, a)),
        wide_place(wide::widened_point(wide, a)) == place(a),
{
    wide_meaning::lemma_widened(wide, round, a.x);
    wide_meaning::lemma_widened(wide, round, a.y);
    wide_meaning::lemma_widened(wide, round, a.z);
}

pub proof fn wide_differences_subtract_places<W: WideArithmetic>(
    wide: &W,
    round: spec_fn(real) -> u64,
    a: WidePoint,
    b: WidePoint,
)
    requires
        wide_rounds(wide, round),
        wide_finite_point(a) && wide_finite_point(b),
        wide_holds(subtracted(wide_place(a), wide_place(b))),
    ensures
        wide_finite_point(wide::spec_minus(wide, a, b)),
        wide_place(wide::spec_minus(wide, a, b)) == subtracted(wide_place(a), wide_place(b)),
{
    wide_meaning::lemma_wide_difference(wide, round, a.x, b.x);
    wide_meaning::lemma_wide_difference(wide, round, a.y, b.y);
    wide_meaning::lemma_wide_difference(wide, round, a.z, b.z);
}

pub proof fn wide_dots_are_inner_products<W: WideArithmetic>(
    wide: &W,
    round: spec_fn(real) -> u64,
    a: WidePoint,
    b: WidePoint,
)
    requires
        wide_rounds(wide, round),
        wide_finite_point(a) && wide_finite_point(b),
        wide_inner_fits(wide_place(a), wide_place(b)),
    ensures
        scalar::wide_finite(wide::spec_dot(wide, a, b)),
        wide_value(wide::spec_dot(wide, a, b)) == inner(wide_place(a), wide_place(b)),
{
    wide_meaning::lemma_wide_product(wide, round, a.x, b.x);
    wide_meaning::lemma_wide_product(wide, round, a.y, b.y);
    wide_meaning::lemma_wide_product(wide, round, a.z, b.z);
    let (x, y, z) = (
        wide.spec_product(a.x, b.x),
        wide.spec_product(a.y, b.y),
        wide.spec_product(a.z, b.z),
    );
    wide_meaning::lemma_wide_sum(wide, round, x, y);
    wide_meaning::lemma_wide_sum(wide, round, wide.spec_sum(x, y), z);
}

proof fn lemma_minor<W: WideArithmetic>(
    wide: &W,
    round: spec_fn(real) -> u64,
    a: u64,
    b: u64,
    c: u64,
    d: u64,
)
    requires
        wide_rounds(wide, round),
        scalar::wide_finite(a) && scalar::wide_finite(b) && scalar::wide_finite(c)
            && scalar::wide_finite(d),
        wide_fits(wide_value(a) * wide_value(b)) && wide_fits(wide_value(c) * wide_value(d)),
        wide_fits(wide_value(a) * wide_value(b) - wide_value(c) * wide_value(d)),
    ensures
        ({
            let minor = wide.spec_difference(wide.spec_product(a, b), wide.spec_product(c, d));
            scalar::wide_finite(minor) && wide_value(minor) == wide_value(a) * wide_value(b)
                - wide_value(c) * wide_value(d)
        }),
{
    wide_meaning::lemma_wide_product(wide, round, a, b);
    wide_meaning::lemma_wide_product(wide, round, c, d);
    wide_meaning::lemma_wide_difference(
        wide,
        round,
        wide.spec_product(a, b),
        wide.spec_product(c, d),
    );
}

pub proof fn wide_crosses_are_outer_products<W: WideArithmetic>(
    wide: &W,
    round: spec_fn(real) -> u64,
    a: WidePoint,
    b: WidePoint,
)
    requires
        wide_rounds(wide, round),
        wide_finite_point(a) && wide_finite_point(b),
        wide_outer_fits(wide_place(a), wide_place(b)),
    ensures
        wide_finite_point(wide::spec_cross(wide, a, b)),
        wide_place(wide::spec_cross(wide, a, b)) == outer(wide_place(a), wide_place(b)),
{
    lemma_minor(wide, round, a.y, b.z, b.y, a.z);
    lemma_minor(wide, round, a.z, b.x, b.z, a.x);
    lemma_minor(wide, round, a.x, b.y, b.x, a.y);
}

/// Whether where a ray crosses a triangle is worked out without rounding.
pub open spec fn wide_crosses(
    origin: (real, real, real),
    direction: (real, real, real),
    a: (real, real, real),
    b: (real, real, real),
    c: (real, real, real),
) -> bool {
    let (ab, ac, o) = (subtracted(b, a), subtracted(c, a), subtracted(origin, a));
    let across = outer(direction, ac);
    let turned = outer(o, ab);
    let (v, w, t) = crossing(origin, direction, a, b, c);
    &&& inner(ab, across) != 0 as real
    &&& wide_holds(ab) && wide_holds(ac) && wide_holds(o)
    &&& wide_outer_fits(direction, ac) && wide_outer_fits(o, ab)
    &&& wide_inner_fits(ab, across) && wide_inner_fits(o, across)
    &&& wide_inner_fits(direction, turned) && wide_inner_fits(ac, turned)
    &&& wide_fits(1 as real / inner(ab, across))
    &&& wide_fits(v) && wide_fits(w) && wide_fits(t)
    &&& wide_fits(1 as real - v) && wide_fits(1 as real - v - w)
}

/// The weights and the distance as they are worked out.
#[verifier::opaque]
spec fn worked<W: WideArithmetic>(
    wide: &W,
    origin: Point,
    direction: Point,
    a: Point,
    b: Point,
    c: Point,
) -> (u64, u64, u64, u64) {
    let along = wide::widened_point(wide, direction);
    let corner = wide::widened_point(wide, a);
    let ab = wide::spec_minus(wide, wide::widened_point(wide, b), corner);
    let ac = wide::spec_minus(wide, wide::widened_point(wide, c), corner);
    let perpendicular = wide::spec_cross(wide, along, ac);
    let determinant = wide::spec_dot(wide, ab, perpendicular);
    let offset = wide::spec_minus(wide, wide::widened_point(wide, origin), corner);
    let inverse = wide.spec_quotient(wide::WIDE_ONE, determinant);
    let v = wide.spec_product(wide::spec_dot(wide, offset, perpendicular), inverse);
    let turned = wide::spec_cross(wide, offset, ab);
    let w = wide.spec_product(wide::spec_dot(wide, along, turned), inverse);
    let u = wide.spec_difference(wide.spec_difference(wide::WIDE_ONE, v), w);
    let distance = wide.spec_product(wide::spec_dot(wide, ac, turned), inverse);
    (u, v, w, distance)
}

proof fn lemma_hit<W: WideArithmetic>(
    wide: &W,
    origin: Point,
    direction: Point,
    a: Point,
    b: Point,
    c: Point,
)
    ensures
        wide::parity_of(wide, origin, direction, a, b, c) matches ParityRayIntersection::Hit {
            distance,
            minimum_barycentric,
        } ==> {
            let (u, v, w, t) = worked(wide, origin, direction, a, b, c);
            &&& distance == t
            &&& minimum_barycentric == wide::wide_least(wide::wide_least(u, v), w)
            &&& !wide::wide_lt(t, wide::WIDE_ZERO)
        },
{
    reveal(worked);
}

#[verifier::spinoff_prover]
#[verifier::rlimit(40)]
proof fn lemma_worked<W: WideArithmetic>(
    wide: &W,
    round: spec_fn(real) -> u64,
    origin: Point,
    direction: Point,
    a: Point,
    b: Point,
    c: Point,
)
    requires
        wide_rounds(wide, round),
        origin.finite() && direction.finite() && a.finite() && b.finite() && c.finite(),
        wide_crosses(place(origin), place(direction), place(a), place(b), place(c)),
    ensures
        ({
            let (u, v, w, t) = worked(wide, origin, direction, a, b, c);
            let (x, y, z) = crossing(
                place(origin),
                place(direction),
                place(a),
                place(b),
                place(c),
            );
            &&& scalar::wide_finite(u) && wide_value(u) == 1 as real - x - y
            &&& scalar::wide_finite(v) && wide_value(v) == x
            &&& scalar::wide_finite(w) && wide_value(w) == y
            &&& scalar::wide_finite(t) && wide_value(t) == z
        }),
{
    reveal(worked);
    wide_meaning::wide_constants_mean_what_they_say();
    widened_points_stay(wide, round, origin);
    widened_points_stay(wide, round, direction);
    widened_points_stay(wide, round, a);
    widened_points_stay(wide, round, b);
    widened_points_stay(wide, round, c);
    let along = wide::widened_point(wide, direction);
    let corner = wide::widened_point(wide, a);
    wide_differences_subtract_places(wide, round, wide::widened_point(wide, b), corner);
    wide_differences_subtract_places(wide, round, wide::widened_point(wide, c), corner);
    wide_differences_subtract_places(wide, round, wide::widened_point(wide, origin), corner);
    let ab = wide::spec_minus(wide, wide::widened_point(wide, b), corner);
    let ac = wide::spec_minus(wide, wide::widened_point(wide, c), corner);
    let offset = wide::spec_minus(wide, wide::widened_point(wide, origin), corner);
    wide_crosses_are_outer_products(wide, round, along, ac);
    let perpendicular = wide::spec_cross(wide, along, ac);
    wide_dots_are_inner_products(wide, round, ab, perpendicular);
    let determinant = wide::spec_dot(wide, ab, perpendicular);
    wide_meaning::lemma_wide_quotient(wide, round, wide::WIDE_ONE, determinant);
    let inverse = wide.spec_quotient(wide::WIDE_ONE, determinant);
    wide_dots_are_inner_products(wide, round, offset, perpendicular);
    wide_crosses_are_outer_products(wide, round, offset, ab);
    let turned = wide::spec_cross(wide, offset, ab);
    wide_dots_are_inner_products(wide, round, along, turned);
    wide_dots_are_inner_products(wide, round, ac, turned);
    let (i, j, k) = (
        wide::spec_dot(wide, offset, perpendicular),
        wide::spec_dot(wide, along, turned),
        wide::spec_dot(wide, ac, turned),
    );
    wide_meaning::lemma_wide_product(wide, round, i, inverse);
    wide_meaning::lemma_wide_product(wide, round, j, inverse);
    wide_meaning::lemma_wide_product(wide, round, k, inverse);
    let (v, w) = (wide.spec_product(i, inverse), wide.spec_product(j, inverse));
    wide_meaning::lemma_wide_difference(wide, round, wide::WIDE_ONE, v);
    wide_meaning::lemma_wide_difference(
        wide,
        round,
        wide.spec_difference(wide::WIDE_ONE, v),
        w,
    );
}

/// A crossing that is counted lies on the ray, ahead of its origin, and on the plane of the triangle;
/// and it is as far from the border as the smallest of its three weights says.
pub proof fn a_crossing_that_counts_is_on_the_ray<W: WideArithmetic>(
    wide: &W,
    round: spec_fn(real) -> u64,
    origin: Point,
    direction: Point,
    a: Point,
    b: Point,
    c: Point,
)
    requires
        wide_rounds(wide, round),
        origin.finite() && direction.finite() && a.finite() && b.finite() && c.finite(),
        wide_crosses(place(origin), place(direction), place(a), place(b), place(c)),
    ensures
        wide::parity_of(wide, origin, direction, a, b, c) matches ParityRayIntersection::Hit {
            distance,
            minimum_barycentric,
        } ==> {
            let (v, w, t) = crossing(
                place(origin),
                place(direction),
                place(a),
                place(b),
                place(c),
            );
            let (u, least) = (1 as real - v - w, wide_value(minimum_barycentric));
            &&& wide_value(distance) >= 0 as real
            &&& added(place(origin), scaled(place(direction), wide_value(distance))) == added(
                scaled(place(a), u),
                added(scaled(place(b), v), scaled(place(c), w)),
            )
            &&& least <= u && least <= v && least <= w
            &&& least == u || least == v || least == w
        },
{
    lemma_hit(wide, origin, direction, a, b, c);
    lemma_worked(wide, round, origin, direction, a, b, c);
    shape_laws::a_crossing_is_on_the_ray_and_the_plane(
        place(origin),
        place(direction),
        place(a),
        place(b),
        place(c),
    );
    wide_meaning::wide_constants_mean_what_they_say();
    let (u, v, w, t) = worked(wide, origin, direction, a, b, c);
    wide_meaning::wide_values_are_ordered(t, wide::WIDE_ZERO);
    wide_meaning::wide_values_are_ordered(v, u);
    wide_meaning::wide_values_are_ordered(w, wide::wide_least(u, v));
}

} // verus!
