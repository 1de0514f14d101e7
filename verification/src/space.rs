//! Vectors of exact numbers, and what the operations on points come to where nothing is rounded.
use crate::arithmetic;
use crate::arithmetic::Arithmetic;
use crate::meaning;
use crate::meaning::{fits, rounds, value};
use crate::scalar;
use crate::scalar::Point;
use vstd::prelude::*;

verus! {

/// Where a finite point is.
pub open spec fn place(point: Point) -> (real, real, real) {
    (value(point.x), value(point.y), value(point.z))
}

pub open spec fn added(a: (real, real, real), b: (real, real, real)) -> (real, real, real) {
    (a.0 + b.0, a.1 + b.1, a.2 + b.2)
}

pub open spec fn subtracted(a: (real, real, real), b: (real, real, real)) -> (real, real, real) {
    (a.0 - b.0, a.1 - b.1, a.2 - b.2)
}

pub open spec fn scaled(a: (real, real, real), factor: real) -> (real, real, real) {
    (a.0 * factor, a.1 * factor, a.2 * factor)
}

pub open spec fn inner(a: (real, real, real), b: (real, real, real)) -> real {
    a.0 * b.0 + a.1 * b.1 + a.2 * b.2
}

pub open spec fn outer(a: (real, real, real), b: (real, real, real)) -> (real, real, real) {
    (a.1 * b.2 - b.1 * a.2, a.2 * b.0 - b.2 * a.0, a.0 * b.1 - b.0 * a.1)
}

pub open spec fn nothing() -> (real, real, real) {
    (0 as real, 0 as real, 0 as real)
}

/// Whether a point is at a vector.
pub open spec fn holds(vector: (real, real, real)) -> bool {
    fits(vector.0) && fits(vector.1) && fits(vector.2)
}

/// Whether the products and sums of an inner product are all numbers that patterns stand for.
pub open spec fn inner_fits(a: (real, real, real), b: (real, real, real)) -> bool {
    &&& fits(a.0 * b.0) && fits(a.1 * b.1) && fits(a.2 * b.2)
    &&& fits(a.0 * b.0 + a.1 * b.1)
    &&& fits(inner(a, b))
}

/// Whether the products and differences of an outer product are.
pub open spec fn outer_fits(a: (real, real, real), b: (real, real, real)) -> bool {
    &&& fits(a.1 * b.2) && fits(b.1 * a.2)
    &&& fits(a.2 * b.0) && fits(b.2 * a.0)
    &&& fits(a.0 * b.1) && fits(b.0 * a.1)
    &&& holds(outer(a, b))
}

/// A sum of points is where the sum of their places is.
pub proof fn sums_add_places<O: Arithmetic>(
    ops: &O,
    round: spec_fn(real) -> u32,
    a: Point,
    b: Point,
)
    requires
        rounds(ops, round),
        a.finite() && b.finite(),
        holds(added(place(a), place(b))),
    ensures
        arithmetic::spec_plus(ops, a, b).finite(),
        place(arithmetic::spec_plus(ops, a, b)) == added(place(a), place(b)),
{
    meaning::lemma_sum(ops, round, a.x, b.x);
    meaning::lemma_sum(ops, round, a.y, b.y);
    meaning::lemma_sum(ops, round, a.z, b.z);
}

/// A difference of points is where the difference of their places is.
pub proof fn differences_subtract_places<O: Arithmetic>(
    ops: &O,
    round: spec_fn(real) -> u32,
    a: Point,
    b: Point,
)
    requires
        rounds(ops, round),
        a.finite() && b.finite(),
        holds(subtracted(place(a), place(b))),
    ensures
        arithmetic::spec_minus(ops, a, b).finite(),
        place(arithmetic::spec_minus(ops, a, b)) == subtracted(place(a), place(b)),
{
    meaning::lemma_difference(ops, round, a.x, b.x);
    meaning::lemma_difference(ops, round, a.y, b.y);
    meaning::lemma_difference(ops, round, a.z, b.z);
}

/// A multiple of a point is where the multiple of its place is.
pub proof fn multiples_scale_places<O: Arithmetic>(
    ops: &O,
    round: spec_fn(real) -> u32,
    a: Point,
    factor: u32,
)
    requires
        rounds(ops, round),
        a.finite() && scalar::finite(factor),
        holds(scaled(place(a), value(factor))),
    ensures
        arithmetic::spec_times(ops, a, factor).finite(),
        place(arithmetic::spec_times(ops, a, factor)) == scaled(place(a), value(factor)),
{
    meaning::lemma_product(ops, round, a.x, factor);
    meaning::lemma_product(ops, round, a.y, factor);
    meaning::lemma_product(ops, round, a.z, factor);
}

/// A part of a point is where the part of its place is.
pub proof fn parts_divide_places<O: Arithmetic>(
    ops: &O,
    round: spec_fn(real) -> u32,
    a: Point,
    divisor: u32,
)
    requires
        rounds(ops, round),
        a.finite() && scalar::finite(divisor) && value(divisor) != 0 as real,
        fits(value(a.x) / value(divisor)),
        fits(value(a.y) / value(divisor)),
        fits(value(a.z) / value(divisor)),
    ensures
        arithmetic::spec_over(ops, a, divisor).finite(),
        place(arithmetic::spec_over(ops, a, divisor)) == (
            value(a.x) / value(divisor),
            value(a.y) / value(divisor),
            value(a.z) / value(divisor),
        ),
{
    meaning::lemma_quotient(ops, round, a.x, divisor);
    meaning::lemma_quotient(ops, round, a.y, divisor);
    meaning::lemma_quotient(ops, round, a.z, divisor);
}

/// A dot product is the inner product of the places.
pub proof fn dots_are_inner_products<O: Arithmetic>(
    ops: &O,
    round: spec_fn(real) -> u32,
    a: Point,
    b: Point,
)
    requires
        rounds(ops, round),
        a.finite() && b.finite(),
        inner_fits(place(a), place(b)),
    ensures
        scalar::finite(arithmetic::spec_dot(ops, a, b)),
        value(arithmetic::spec_dot(ops, a, b)) == inner(place(a), place(b)),
{
    meaning::lemma_product(ops, round, a.x, b.x);
    meaning::lemma_product(ops, round, a.y, b.y);
    meaning::lemma_product(ops, round, a.z, b.z);
    let (x, y, z) = (
        ops.spec_product(a.x, b.x),
        ops.spec_product(a.y, b.y),
        ops.spec_product(a.z, b.z),
    );
    meaning::lemma_sum(ops, round, x, y);
    meaning::lemma_sum(ops, round, ops.spec_sum(x, y), z);
}

/// A cross product is where the outer product of the places is.
pub proof fn crosses_are_outer_products<O: Arithmetic>(
    ops: &O,
    round: spec_fn(real) -> u32,
    a: Point,
    b: Point,
)
    requires
        rounds(ops, round),
        a.finite() && b.finite(),
        outer_fits(place(a), place(b)),
    ensures
        arithmetic::spec_cross(ops, a, b).finite(),
        place(arithmetic::spec_cross(ops, a, b)) == outer(place(a), place(b)),
{
    meaning::lemma_product(ops, round, a.y, b.z);
    meaning::lemma_product(ops, round, b.y, a.z);
    meaning::lemma_product(ops, round, a.z, b.x);
    meaning::lemma_product(ops, round, b.z, a.x);
    meaning::lemma_product(ops, round, a.x, b.y);
    meaning::lemma_product(ops, round, b.x, a.y);
    meaning::lemma_difference(
        ops,
        round,
        ops.spec_product(a.y, b.z),
        ops.spec_product(b.y, a.z),
    );
    meaning::lemma_difference(
        ops,
        round,
        ops.spec_product(a.z, b.x),
        ops.spec_product(b.z, a.x),
    );
    meaning::lemma_difference(
        ops,
        round,
        ops.spec_product(a.x, b.y),
        ops.spec_product(b.x, a.y),
    );
}

/// A length squared is the inner product of a vector with itself.
pub proof fn lengths_are_roots_of_squares<O: Arithmetic>(
    ops: &O,
    round: spec_fn(real) -> u32,
    a: Point,
    length: real,
)
    requires
        rounds(ops, round),
        a.finite(),
        inner_fits(place(a), place(a)),
        length >= 0 as real,
        length * length == inner(place(a), place(a)),
        fits(length),
    ensures
        scalar::finite(arithmetic::spec_length(ops, a)),
        value(arithmetic::spec_length(ops, a)) == length,
{
    dots_are_inner_products(ops, round, a, a);
    meaning::lemma_root(ops, round, arithmetic::spec_dot(ops, a, a), length);
}

/// Whether the distance of two places is a number, and is worked out without rounding.
pub open spec fn apart(a: (real, real, real), b: (real, real, real), length: real) -> bool {
    let way = subtracted(a, b);
    &&& holds(way)
    &&& inner_fits(way, way)
    &&& length >= 0 as real
    &&& length * length == inner(way, way)
    &&& fits(length)
}

/// The distance of two points is the length of the way between their places.
pub proof fn distances_are_lengths<O: Arithmetic>(
    ops: &O,
    round: spec_fn(real) -> u32,
    a: Point,
    b: Point,
    length: real,
)
    requires
        rounds(ops, round),
        a.finite() && b.finite(),
        apart(place(a), place(b), length),
    ensures
        scalar::finite(arithmetic::spec_distance(ops, a, b)),
        value(arithmetic::spec_distance(ops, a, b)) == length,
        scalar::finite(arithmetic::spec_distance_squared(ops, a, b)),
        value(arithmetic::spec_distance_squared(ops, a, b)) == length * length,
{
    differences_subtract_places(ops, round, a, b);
    let way = arithmetic::spec_minus(ops, a, b);
    dots_are_inner_products(ops, round, way, way);
    lengths_are_roots_of_squares(ops, round, way, length);
}

/// Whether a vector has a length that is a number, and so have its unit vector's coordinates.
pub open spec fn has_unit(a: (real, real, real), length: real) -> bool {
    &&& inner_fits(a, a)
    &&& length > 0 as real
    &&& length * length == inner(a, a)
    &&& fits(length)
    &&& fits(1 as real / length)
    &&& holds(scaled(a, 1 as real / length))
}

/// The unit vector along a vector points the same way and has length one.
pub proof fn units_point_along<O: Arithmetic>(
    ops: &O,
    round: spec_fn(real) -> u32,
    a: Point,
    length: real,
)
    requires
        rounds(ops, round),
        a.finite(),
        has_unit(place(a), length),
    ensures
        arithmetic::spec_direction(ops, a) == Some(arithmetic::spec_unit(ops, a)),
        arithmetic::spec_unit(ops, a).finite(),
        place(arithmetic::spec_unit(ops, a)) == scaled(place(a), 1 as real / length),
        scaled(place(arithmetic::spec_unit(ops, a)), length) == place(a),
{
    lengths_are_roots_of_squares(ops, round, a, length);
    meaning::constants_mean_what_they_say();
    let found = arithmetic::spec_length(ops, a);
    meaning::lemma_quotient(ops, round, scalar::ONE, found);
    let scale = ops.spec_quotient(scalar::ONE, found);
    let part = 1 as real / length;
    assert(part > 0 as real) by (nonlinear_arith)
        requires
            length > 0 as real,
            part == 1 as real / length,
    ;
    meaning::values_are_ordered(scalar::ZERO, scale);
    multiples_scale_places(ops, round, a, scale);
    let (x, y, z) = place(a);
    assert(x * part * length == x && y * part * length == y && z * part * length == z) by (nonlinear_arith)
        requires
            length > 0 as real,
            part == 1 as real / length,
    ;
}

/// The places of points added up.
pub open spec fn total(points: Seq<Point>) -> (real, real, real)
    decreases points.len(),
{
    if points.len() == 0 {
        nothing()
    } else {
        added(total(points.drop_last()), place(points.last()))
    }
}

/// Whether points are finite and adding them up needs no rounding.
pub open spec fn adds_up(points: Seq<Point>) -> bool
    decreases points.len(),
{
    points.len() > 0 ==> points.last().finite() && holds(total(points)) && adds_up(
        points.drop_last(),
    )
}

/// Adding points up adds their places up.
pub proof fn totals_add_places<O: Arithmetic>(
    ops: &O,
    round: spec_fn(real) -> u32,
    points: Seq<Point>,
)
    requires
        rounds(ops, round),
        adds_up(points),
    ensures
        arithmetic::spec_total(ops, points).finite(),
        place(arithmetic::spec_total(ops, points)) == total(points),
    decreases points.len(),
{
    meaning::constants_mean_what_they_say();
    if points.len() > 0 {
        totals_add_places(ops, round, points.drop_last());
        sums_add_places(
            ops,
            round,
            arithmetic::spec_total(ops, points.drop_last()),
            points.last(),
        );
    }
}

} // verus!
