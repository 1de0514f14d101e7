//! Triangles, boxes and rays in single precision.
use crate::arithmetic;
use crate::arithmetic::Arithmetic;
use crate::geometry::Geometry;
use crate::query::Shading;
use crate::scalar;
use crate::scalar::Point;
use crate::voxel_remesh::MaskBlend;
use vstd::prelude::*;

verus! {

/// The bit pattern of `1.0e-12`: how small an area is negligible next to the longest edge.
pub const TRIANGLE_RELATIVE_EPSILON: u32 = 0x2b8c_bccc;

/// The bit pattern of `1.0e-20`: how small a part of a direction is none.
pub const PARALLEL_EPSILON: u32 = 0x1e3c_e508;

/// The bit pattern of `1.0e-7`: how flat a ray over a triangle is too flat.
pub const FLAT_RAY_EPSILON: u32 = 0x33d6_bf95;

/// The bit pattern of `-1.0e-6`, how far outside a triangle a ray may pass.
pub const WEIGHT_LOW: u32 = 0xb586_37bd;

/// The bit pattern of `1.0 + 1.0e-6`.
pub const WEIGHT_HIGH: u32 = 0x3f80_0008;

pub open spec fn length_squared<O: Arithmetic>(ops: &O, a: Point) -> u32 {
    arithmetic::spec_dot(ops, a, a)
}

/// Whether a triangle has more than a negligible area.
pub open spec fn forms_valid_triangle<O: Arithmetic>(ops: &O, a: Point, b: Point, c: Point) -> bool {
    let ab = arithmetic::spec_minus(ops, b, a);
    let ac = arithmetic::spec_minus(ops, c, a);
    let bc = arithmetic::spec_minus(ops, c, b);
    let longest = scalar::greatest(
        scalar::greatest(length_squared(ops, ab), length_squared(ops, ac)),
        length_squared(ops, bc),
    );
    let area = length_squared(ops, arithmetic::spec_cross(ops, ab, ac));
    &&& scalar::finite(longest) && scalar::finite(area)
    &&& scalar::lt(scalar::ZERO, longest)
    &&& scalar::lt(
        ops.spec_product(ops.spec_product(longest, longest), TRIANGLE_RELATIVE_EPSILON),
        area,
    )
}

pub fn positions_form_valid_triangle<O: Arithmetic>(ops: &O, a: Point, b: Point, c: Point)
 -> (result: bool)
    requires
        ops.total(),
    ensures
        result == forms_valid_triangle(ops, a, b, c),
{
    let ab = arithmetic::minus(ops, b, a);
    let ac = arithmetic::minus(ops, c, a);
    let bc = arithmetic::minus(ops, c, b);
    let longest = scalar::max(
        scalar::max(arithmetic::dot(ops, ab, ab), arithmetic::dot(ops, ac, ac)),
        arithmetic::dot(ops, bc, bc),
    );
    let cross = arithmetic::cross(ops, ab, ac);
    let area = arithmetic::dot(ops, cross, cross);
    scalar::is_finite(longest) && scalar::is_finite(area) && scalar::is_less(scalar::ZERO, longest)
        && scalar::is_less(
        ops.product(ops.product(longest, longest), TRIANGLE_RELATIVE_EPSILON),
        area,
    )
}

/// The geometry of meshes over the operations of a caller.
pub struct Solid<O> {
    pub ops: O,
}

impl<O: Arithmetic> Geometry for Solid<O> {
    open spec fn total(&self) -> bool {
        self.ops.total()
    }

    open spec fn spec_well_shaped(&self, a: Point, b: Point, c: Point) -> bool {
        forms_valid_triangle(&self.ops, a, b, c)
    }

    open spec fn spec_cross(&self, a: Point, b: Point, c: Point) -> Point {
        arithmetic::spec_cross(
            &self.ops,
            arithmetic::spec_minus(&self.ops, b, a),
            arithmetic::spec_minus(&self.ops, c, a),
        )
    }

    open spec fn spec_opposed(&self, u: Point, v: Point) -> bool {
        scalar::lt(arithmetic::spec_dot(&self.ops, u, v), scalar::ZERO)
    }

    open spec fn spec_direction(&self, vectors: Seq<Point>) -> Point {
        arithmetic::spec_unit(&self.ops, arithmetic::spec_total(&self.ops, vectors))
    }

    open spec fn spec_centroid(&self, a: Point, b: Point, c: Point) -> Point {
        arithmetic::spec_over(
            &self.ops,
            arithmetic::spec_plus(&self.ops, arithmetic::spec_plus(&self.ops, a, b), c),
            scalar::THREE,
        )
    }

    open spec fn spec_extent(&self, min: Point, max: Point) -> Point {
        arithmetic::spec_minus(&self.ops, max, min)
    }

    fn well_shaped(&self, a: Point, b: Point, c: Point) -> bool {
        positions_form_valid_triangle(&self.ops, a, b, c)
    }

    fn cross(&self, a: Point, b: Point, c: Point) -> Point {
        arithmetic::cross(
            &self.ops,
            arithmetic::minus(&self.ops, b, a),
            arithmetic::minus(&self.ops, c, a),
        )
    }

    fn opposed(&self, u: Point, v: Point) -> bool {
        scalar::is_less(arithmetic::dot(&self.ops, u, v), scalar::ZERO)
    }

    fn direction(&self, vectors: &Vec<Point>) -> Point {
        let mut total = Point { x: scalar::ZERO, y: scalar::ZERO, z: scalar::ZERO };
        let mut i: usize = 0;
        while i < vectors.len()
            invariant
                i <= vectors@.len(),
                self.ops.total(),
                total == arithmetic::spec_total(&self.ops, vectors@.take(i as int)),
            decreases vectors@.len() - i,
        {
            assert(vectors@.take(i + 1).drop_last() =~= vectors@.take(i as int));
            total = arithmetic::plus(&self.ops, total, vectors[i]);
            i += 1;
        }
        assert(vectors@.take(i as int) =~= vectors@);
        arithmetic::unit(&self.ops, total)
    }

    fn centroid(&self, a: Point, b: Point, c: Point) -> Point {
        arithmetic::over(
            &self.ops,
            arithmetic::plus(&self.ops, arithmetic::plus(&self.ops, a, b), c),
            scalar::THREE,
        )
    }

    fn extent(&self, min: Point, max: Point) -> Point {
        arithmetic::minus(&self.ops, max, min)
    }
}

/// The part of a ray that lies between two planes across an axis, within the part so far.
pub open spec fn slab<O: Arithmetic>(
    ops: &O,
    span: Option<(u32, u32)>,
    origin: u32,
    direction: u32,
    min: u32,
    max: u32,
) -> Option<(u32, u32)> {
    match span {
        None => None,
        Some((near, far)) => if scalar::lt(scalar::magnitude(direction) as u32, PARALLEL_EPSILON) {
            if scalar::lt(origin, min) || scalar::lt(max, origin) {
                None
            } else {
                span
            }
        } else {
            let inverse = ops.spec_quotient(scalar::ONE, direction);
            let low = ops.spec_product(ops.spec_difference(min, origin), inverse);
            let high = ops.spec_product(ops.spec_difference(max, origin), inverse);
            let (first, second) = if scalar::lt(high, low) {
                (high, low)
            } else {
                (low, high)
            };
            let entry = scalar::greatest(near, first);
            let exit = scalar::least(far, second);
            if scalar::lt(exit, entry) {
                None
            } else {
                Some((entry, exit))
            }
        },
    }
}

/// Where a ray enters a box.
pub open spec fn enters<O: Arithmetic>(
    ops: &O,
    origin: Point,
    direction: Point,
    min: Point,
    max: Point,
) -> Option<u32> {
    let whole = Some((scalar::ZERO, scalar::INFINITY));
    let x = slab(ops, whole, origin.x, direction.x, min.x, max.x);
    let y = slab(ops, x, origin.y, direction.y, min.y, max.y);
    let z = slab(ops, y, origin.z, direction.z, min.z, max.z);
    match z {
        Some((near, far)) => if scalar::le(scalar::ZERO, far) {
            Some(near)
        } else {
            None
        },
        None => None,
    }
}

fn cut<O: Arithmetic>(
    ops: &O,
    span: Option<(u32, u32)>,
    origin: u32,
    direction: u32,
    min: u32,
    max: u32,
) -> (result: Option<(u32, u32)>)
    requires
        ops.total(),
    ensures
        result == slab(ops, span, origin, direction, min, max),
{
    match span {
        None => None,
        Some((near, far)) => {
            if scalar::is_less(scalar::absolute(direction), PARALLEL_EPSILON) {
                if scalar::is_less(origin, min) || scalar::is_less(max, origin) {
                    return None;
                }
                return span;
            }
            let inverse = ops.quotient(scalar::ONE, direction);
            let low = ops.product(ops.difference(min, origin), inverse);
            let high = ops.product(ops.difference(max, origin), inverse);
            let (first, second) = if scalar::is_less(high, low) {
                (high, low)
            } else {
                (low, high)
            };
            let entry = scalar::max(near, first);
            let exit = scalar::min(far, second);
            if scalar::is_less(exit, entry) {
                None
            } else {
                Some((entry, exit))
            }
        },
    }
}

pub fn ray_aabb<O: Arithmetic>(ops: &O, origin: Point, direction: Point, min: Point, max: Point)
 -> (result: Option<u32>)
    requires
        ops.total(),
    ensures
        result == enters(ops, origin, direction, min, max),
{
    let whole = Some((scalar::ZERO, scalar::INFINITY));
    let x = cut(ops, whole, origin.x, direction.x, min.x, max.x);
    let y = cut(ops, x, origin.y, direction.y, min.y, max.y);
    let z = cut(ops, y, origin.z, direction.z, min.z, max.z);
    match z {
        Some((near, far)) => if scalar::is_at_most(scalar::ZERO, far) {
            Some(near)
        } else {
            None
        },
        None => None,
    }
}

/// Where a ray meets a triangle: how far along, and with which weights of the corners.
pub open spec fn meets<O: Arithmetic>(
    ops: &O,
    origin: Point,
    direction: Point,
    a: Point,
    b: Point,
    c: Point,
) -> Option<(u32, Point)> {
    let ab = arithmetic::spec_minus(ops, b, a);
    let ac = arithmetic::spec_minus(ops, c, a);
    let perpendicular = arithmetic::spec_cross(ops, direction, ac);
    let determinant = arithmetic::spec_dot(ops, ab, perpendicular);
    let scale = ops.spec_product(
        arithmetic::spec_length(ops, ab),
        arithmetic::spec_length(ops, ac),
    );
    let inverse = ops.spec_quotient(scalar::ONE, determinant);
    let offset = arithmetic::spec_minus(ops, origin, a);
    let v = ops.spec_product(arithmetic::spec_dot(ops, offset, perpendicular), inverse);
    let cross = arithmetic::spec_cross(ops, offset, ab);
    let w = ops.spec_product(arithmetic::spec_dot(ops, direction, cross), inverse);
    let distance = ops.spec_product(arithmetic::spec_dot(ops, ac, cross), inverse);
    let u = ops.spec_difference(ops.spec_difference(scalar::ONE, v), w);
    if scalar::le(
        scalar::magnitude(determinant) as u32,
        ops.spec_product(scale, FLAT_RAY_EPSILON),
    ) {
        None
    } else if !(scalar::le(WEIGHT_LOW, v) && scalar::le(v, WEIGHT_HIGH)) {
        None
    } else if scalar::lt(w, WEIGHT_LOW) || scalar::lt(WEIGHT_HIGH, ops.spec_sum(v, w)) {
        None
    } else if scalar::lt(distance, scalar::ZERO) || !scalar::finite(distance) {
        None
    } else {
        Some((distance, Point { x: u, y: v, z: w }))
    }
}

pub fn ray_triangle<O: Arithmetic>(
    ops: &O,
    origin: Point,
    direction: Point,
    a: Point,
    b: Point,
    c: Point,
) -> (result: Option<(u32, Point)>)
    requires
        ops.total(),
    ensures
        result == meets(ops, origin, direction, a, b, c),
        result matches Some((distance, _)) ==> scalar::finite(distance) && !scalar::lt(
            distance,
            scalar::ZERO,
        ),
{
    let edge_ab = arithmetic::minus(ops, b, a);
    let edge_ac = arithmetic::minus(ops, c, a);
    let perpendicular = arithmetic::cross(ops, direction, edge_ac);
    let determinant = arithmetic::dot(ops, edge_ab, perpendicular);
    let scale = ops.product(arithmetic::length(ops, edge_ab), arithmetic::length(ops, edge_ac));
    if scalar::is_at_most(scalar::absolute(determinant), ops.product(scale, FLAT_RAY_EPSILON)) {
        return None;
    }
    let inverse = ops.quotient(scalar::ONE, determinant);
    let offset = arithmetic::minus(ops, origin, a);
    let v = ops.product(arithmetic::dot(ops, offset, perpendicular), inverse);
    if !(scalar::is_at_most(WEIGHT_LOW, v) && scalar::is_at_most(v, WEIGHT_HIGH)) {
        return None;
    }
    let cross = arithmetic::cross(ops, offset, edge_ab);
    let w = ops.product(arithmetic::dot(ops, direction, cross), inverse);
    if scalar::is_less(w, WEIGHT_LOW) || scalar::is_less(WEIGHT_HIGH, ops.sum(v, w)) {
        return None;
    }
    let distance = ops.product(arithmetic::dot(ops, edge_ac, cross), inverse);
    if scalar::is_less(distance, scalar::ZERO) || !scalar::is_finite(distance) {
        return None;
    }
    let u = ops.difference(ops.difference(scalar::ONE, v), w);
    Some((distance, Point { x: u, y: v, z: w }))
}

/// How far a point is from a box, squared.
pub open spec fn away_squared<O: Arithmetic>(ops: &O, point: Point, min: Point, max: Point) -> u32 {
    let below = arithmetic::spec_minus(ops, min, point).greatest(arithmetic::origin());
    let above = arithmetic::spec_minus(ops, point, max).greatest(arithmetic::origin());
    length_squared(ops, arithmetic::spec_plus(ops, below, above))
}

pub fn point_aabb_distance_squared<O: Arithmetic>(ops: &O, point: Point, min: Point, max: Point)
 -> (result: u32)
    requires
        ops.total(),
    ensures
        result == away_squared(ops, point, min, max),
{
    let zero = Point { x: scalar::ZERO, y: scalar::ZERO, z: scalar::ZERO };
    let below = arithmetic::minus(ops, min, point).max(&zero);
    let above = arithmetic::minus(ops, point, max).max(&zero);
    let away = arithmetic::plus(ops, below, above);
    arithmetic::dot(ops, away, away)
}

/// A point so far along an edge, and the weights of its ends.
pub open spec fn point_along<O: Arithmetic>(ops: &O, from: Point, edge: Point, part: u32) -> Point {
    arithmetic::spec_plus(ops, from, arithmetic::spec_times(ops, edge, part))
}

/// The point of a triangle nearest to a point, and the weights of the corners there: a corner, a
/// point on a side, or one inside, by the region that the point lies over.
pub open spec fn nearest_on<O: Arithmetic>(ops: &O, point: Point, a: Point, b: Point, c: Point) -> (
    Point,
    Point,
) {
    let ab = arithmetic::spec_minus(ops, b, a);
    let ac = arithmetic::spec_minus(ops, c, a);
    let ap = arithmetic::spec_minus(ops, point, a);
    let bp = arithmetic::spec_minus(ops, point, b);
    let cp = arithmetic::spec_minus(ops, point, c);
    let d1 = arithmetic::spec_dot(ops, ab, ap);
    let d2 = arithmetic::spec_dot(ops, ac, ap);
    let d3 = arithmetic::spec_dot(ops, ab, bp);
    let d4 = arithmetic::spec_dot(ops, ac, bp);
    let d5 = arithmetic::spec_dot(ops, ab, cp);
    let d6 = arithmetic::spec_dot(ops, ac, cp);
    let vc = ops.spec_difference(ops.spec_product(d1, d4), ops.spec_product(d3, d2));
    let vb = ops.spec_difference(ops.spec_product(d5, d2), ops.spec_product(d1, d6));
    let va = ops.spec_difference(ops.spec_product(d3, d6), ops.spec_product(d5, d4));
    let d43 = ops.spec_difference(d4, d3);
    let d56 = ops.spec_difference(d5, d6);
    if scalar::le(d1, scalar::ZERO) && scalar::le(d2, scalar::ZERO) {
        (a, Point { x: scalar::ONE, y: scalar::ZERO, z: scalar::ZERO })
    } else if scalar::le(scalar::ZERO, d3) && scalar::le(d4, d3) {
        (b, Point { x: scalar::ZERO, y: scalar::ONE, z: scalar::ZERO })
    } else if scalar::le(vc, scalar::ZERO) && scalar::le(scalar::ZERO, d1) && scalar::le(
        d3,
        scalar::ZERO,
    ) {
        let v = ops.spec_quotient(d1, ops.spec_difference(d1, d3));
        (
            point_along(ops, a, ab, v),
            Point { x: ops.spec_difference(scalar::ONE, v), y: v, z: scalar::ZERO },
        )
    } else if scalar::le(scalar::ZERO, d6) && scalar::le(d5, d6) {
        (c, Point { x: scalar::ZERO, y: scalar::ZERO, z: scalar::ONE })
    } else if scalar::le(vb, scalar::ZERO) && scalar::le(scalar::ZERO, d2) && scalar::le(
        d6,
        scalar::ZERO,
    ) {
        let w = ops.spec_quotient(d2, ops.spec_difference(d2, d6));
        (
            point_along(ops, a, ac, w),
            Point { x: ops.spec_difference(scalar::ONE, w), y: scalar::ZERO, z: w },
        )
    } else if scalar::le(va, scalar::ZERO) && scalar::le(scalar::ZERO, d43) && scalar::le(
        scalar::ZERO,
        d56,
    ) {
        let w = ops.spec_quotient(d43, ops.spec_sum(d43, d56));
        (
            point_along(ops, b, arithmetic::spec_minus(ops, c, b), w),
            Point { x: scalar::ZERO, y: ops.spec_difference(scalar::ONE, w), z: w },
        )
    } else {
        let inverse = ops.spec_quotient(
            scalar::ONE,
            ops.spec_sum(ops.spec_sum(va, vb), vc),
        );
        let v = ops.spec_product(vb, inverse);
        let w = ops.spec_product(vc, inverse);
        (
            point_along(ops, point_along(ops, a, ab, v), ac, w),
            Point {
                x: ops.spec_difference(ops.spec_difference(scalar::ONE, v), w),
                y: v,
                z: w,
            },
        )
    }
}

fn along<O: Arithmetic>(ops: &O, from: Point, edge: Point, part: u32) -> (result: Point)
    requires
        ops.total(),
    ensures
        result == point_along(ops, from, edge, part),
{
    arithmetic::plus(ops, from, arithmetic::times(ops, edge, part))
}

pub fn closest_point_on_triangle<O: Arithmetic>(ops: &O, point: Point, a: Point, b: Point, c: Point)
 -> (result: (Point, Point))
    requires
        ops.total(),
    ensures
        result == nearest_on(ops, point, a, b, c),
{
    let zero = scalar::ZERO;
    let one = scalar::ONE;
    let ab = arithmetic::minus(ops, b, a);
    let ac = arithmetic::minus(ops, c, a);
    let ap = arithmetic::minus(ops, point, a);
    let d1 = arithmetic::dot(ops, ab, ap);
    let d2 = arithmetic::dot(ops, ac, ap);
    if scalar::is_at_most(d1, zero) && scalar::is_at_most(d2, zero) {
        return (a, Point { x: one, y: zero, z: zero });
    }
    let bp = arithmetic::minus(ops, point, b);
    let d3 = arithmetic::dot(ops, ab, bp);
    let d4 = arithmetic::dot(ops, ac, bp);
    if scalar::is_at_most(zero, d3) && scalar::is_at_most(d4, d3) {
        return (b, Point { x: zero, y: one, z: zero });
    }
    let vc = ops.difference(ops.product(d1, d4), ops.product(d3, d2));
    if scalar::is_at_most(vc, zero) && scalar::is_at_most(zero, d1) && scalar::is_at_most(d3, zero) {
        let v = ops.quotient(d1, ops.difference(d1, d3));
        let weights = Point { x: ops.difference(one, v), y: v, z: zero };
        return (along(ops, a, ab, v), weights);
    }
    let cp = arithmetic::minus(ops, point, c);
    let d5 = arithmetic::dot(ops, ab, cp);
    let d6 = arithmetic::dot(ops, ac, cp);
    if scalar::is_at_most(zero, d6) && scalar::is_at_most(d5, d6) {
        return (c, Point { x: zero, y: zero, z: one });
    }
    let vb = ops.difference(ops.product(d5, d2), ops.product(d1, d6));
    if scalar::is_at_most(vb, zero) && scalar::is_at_most(zero, d2) && scalar::is_at_most(d6, zero) {
        let w = ops.quotient(d2, ops.difference(d2, d6));
        let weights = Point { x: ops.difference(one, w), y: zero, z: w };
        return (along(ops, a, ac, w), weights);
    }
    let va = ops.difference(ops.product(d3, d6), ops.product(d5, d4));
    let d43 = ops.difference(d4, d3);
    let d56 = ops.difference(d5, d6);
    if scalar::is_at_most(va, zero) && scalar::is_at_most(zero, d43) && scalar::is_at_most(
        zero,
        d56,
    ) {
        let w = ops.quotient(d43, ops.sum(d43, d56));
        let weights = Point { x: zero, y: ops.difference(one, w), z: w };
        return (along(ops, b, arithmetic::minus(ops, c, b), w), weights);
    }
    let inverse = ops.quotient(one, ops.sum(ops.sum(va, vb), vc));
    let v = ops.product(vb, inverse);
    let w = ops.product(vc, inverse);
    let weights = Point { x: ops.difference(ops.difference(one, v), w), y: v, z: w };
    (along(ops, along(ops, a, ab, v), ac, w), weights)
}

/// The point so far along a ray.
pub fn point_on_ray<O: Arithmetic>(ops: &O, origin: Point, direction: Point, distance: u32)
 -> (result: Point)
    requires
        ops.total(),
    ensures
        result == arithmetic::spec_plus(
            ops,
            origin,
            arithmetic::spec_times(ops, direction, distance),
        ),
{
    arithmetic::plus(ops, origin, arithmetic::times(ops, direction, distance))
}

/// The normal between the corners of a triangle, or that of its plane where that has none, turned
/// against a direction.
pub open spec fn shaded<O: Arithmetic>(ops: &O, direction: Point, shading: Shading) -> Point {
    let (na, nb, nc) = shading.normals;
    let (a, b, c) = shading.corners;
    let blended = arithmetic::spec_plus(
        ops,
        arithmetic::spec_plus(
            ops,
            arithmetic::spec_times(ops, na, shading.barycentric.x),
            arithmetic::spec_times(ops, nb, shading.barycentric.y),
        ),
        arithmetic::spec_times(ops, nc, shading.barycentric.z),
    );
    let normal = match arithmetic::spec_direction(ops, blended) {
        Some(unit) => unit,
        None => arithmetic::spec_unit(
            ops,
            arithmetic::spec_cross(
                ops,
                arithmetic::spec_minus(ops, b, a),
                arithmetic::spec_minus(ops, c, a),
            ),
        ),
    };
    if scalar::lt(scalar::ZERO, arithmetic::spec_dot(ops, normal, direction)) {
        arithmetic::spec_opposite(normal)
    } else {
        normal
    }
}

pub fn shade<O: Arithmetic>(ops: &O, direction: Point, shading: &Shading) -> (result: Point)
    requires
        ops.total(),
    ensures
        result == shaded(ops, direction, *shading),
{
    let (na, nb, nc) = shading.normals;
    let (a, b, c) = shading.corners;
    let blended = arithmetic::plus(
        ops,
        arithmetic::plus(
            ops,
            arithmetic::times(ops, na, shading.barycentric.x),
            arithmetic::times(ops, nb, shading.barycentric.y),
        ),
        arithmetic::times(ops, nc, shading.barycentric.z),
    );
    let normal = match arithmetic::direction(ops, blended) {
        Some(unit) => unit,
        None => arithmetic::unit(
            ops,
            arithmetic::cross(ops, arithmetic::minus(ops, b, a), arithmetic::minus(ops, c, a)),
        ),
    };
    if scalar::is_less(scalar::ZERO, arithmetic::dot(ops, normal, direction)) {
        arithmetic::opposite(normal)
    } else {
        normal
    }
}

/// The weight between the corners of a triangle.
pub open spec fn blended<O: Arithmetic>(ops: &O, blend: MaskBlend) -> u32 {
    ops.spec_sum(
        ops.spec_sum(
            ops.spec_product(blend.a, blend.barycentric.x),
            ops.spec_product(blend.b, blend.barycentric.y),
        ),
        ops.spec_product(blend.c, blend.barycentric.z),
    )
}

pub fn blend_weights<O: Arithmetic>(ops: &O, blend: &MaskBlend) -> (result: u32)
    requires
        ops.total(),
    ensures
        result == blended(ops, *blend),
{
    ops.sum(
        ops.sum(
            ops.product(blend.a, blend.barycentric.x),
            ops.product(blend.b, blend.barycentric.y),
        ),
        ops.product(blend.c, blend.barycentric.z),
    )
}

} // verus!
