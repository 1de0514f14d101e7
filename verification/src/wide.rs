//! Computations in double precision: crossings that are counted, areas and grids.
use crate::arithmetic;
use crate::geometry;
use crate::mesh::Mesh;
use crate::scalar;
use crate::scalar::Point;
use crate::search::ParityRayIntersection;
use crate::voxel_remesh::{GridAxis, GridMeasure, GridRequest};
use vstd::prelude::*;

verus! {

/// The bit pattern of `0.0` in double precision.
pub const WIDE_ZERO: u64 = 0;

/// The bit pattern of `1.0` in double precision.
pub const WIDE_ONE: u64 = 0x3ff0_0000_0000_0000;

/// The bit pattern of `2.0` in double precision.
pub const WIDE_TWO: u64 = 0x4000_0000_0000_0000;

/// The bit pattern of `8.0` in double precision.
pub const WIDE_EIGHT: u64 = 0x4020_0000_0000_0000;

/// The bit pattern of `16.0` in double precision.
pub const WIDE_SIXTEEN: u64 = 0x4030_0000_0000_0000;

/// The bit pattern of the distance between `1.0` and the next larger number of double precision.
pub const WIDE_EPSILON: u64 = 0x3cb0_0000_0000_0000;

/// The bit pattern of the same distance of single precision, in double precision.
pub const SINGLE_EPSILON: u64 = 0x3e80_0000_0000_0000;

/// The bit pattern of `-1.0e-12` in double precision.
pub const WIDE_WEIGHT_LOW: u64 = 0xbd71_9799_812d_ea11;

/// The bit pattern of `1.0 + 1.0e-12` in double precision.
pub const WIDE_WEIGHT_HIGH: u64 = 0x3ff0_0000_0000_1198;

/// Whether a function can be called on every pair of numbers, and gives each pair one result.
pub open spec fn wide_combines<F: Fn(u64, u64) -> u64>(function: F) -> bool {
    &&& forall|a: u64, b: u64| #[trigger] function.requires((a, b))
    &&& forall|a: u64, b: u64, r: u64, s: u64|
        #[trigger] function.ensures((a, b), r) && #[trigger] function.ensures((a, b), s) ==> r == s
}

/// What such a function gives.
pub open spec fn wide_combined<F: Fn(u64, u64) -> u64>(function: F, a: u64, b: u64) -> u64 {
    choose|r: u64| function.ensures((a, b), r)
}

/// The operations on double-precision numbers.
pub trait WideArithmetic: Sized {
    /// Whether every operation can be called, and gives equal arguments equal results.
    spec fn total(&self) -> bool;

    spec fn spec_sum(&self, a: u64, b: u64) -> u64;

    spec fn spec_difference(&self, a: u64, b: u64) -> u64;

    spec fn spec_product(&self, a: u64, b: u64) -> u64;

    spec fn spec_quotient(&self, a: u64, b: u64) -> u64;

    spec fn spec_root(&self, a: u64) -> u64;

    spec fn spec_widened(&self, a: u32) -> u64;

    spec fn spec_narrowed(&self, a: u64) -> u32;

    spec fn spec_count(&self, items: u32) -> u64;

    fn sum(&self, a: u64, b: u64) -> (result: u64)
        requires
            self.total(),
        ensures
            result == self.spec_sum(a, b),
    ;

    fn difference(&self, a: u64, b: u64) -> (result: u64)
        requires
            self.total(),
        ensures
            result == self.spec_difference(a, b),
    ;

    fn product(&self, a: u64, b: u64) -> (result: u64)
        requires
            self.total(),
        ensures
            result == self.spec_product(a, b),
    ;

    fn quotient(&self, a: u64, b: u64) -> (result: u64)
        requires
            self.total(),
        ensures
            result == self.spec_quotient(a, b),
    ;

    /// The square root.
    fn root(&self, a: u64) -> (result: u64)
        requires
            self.total(),
        ensures
            result == self.spec_root(a),
    ;

    /// A single-precision number in double precision.
    fn widened(&self, a: u32) -> (result: u64)
        requires
            self.total(),
        ensures
            result == self.spec_widened(a),
    ;

    /// A double-precision number in single precision.
    fn narrowed(&self, a: u64) -> (result: u32)
        requires
            self.total(),
        ensures
            result == self.spec_narrowed(a),
    ;

    /// A number of items as a double-precision number.
    fn count(&self, items: u32) -> (result: u64)
        requires
            self.total(),
        ensures
            result == self.spec_count(items),
    ;
}

/// The functions of a caller, one for each operation.
pub struct WideOperations<S, D, P, Q, R, W, N, C> {
    pub sum: S,
    pub difference: D,
    pub product: P,
    pub quotient: Q,
    pub root: R,
    pub widened: W,
    pub narrowed: N,
    pub count: C,
}

impl<S, D, P, Q, R, W, N, C> WideArithmetic for WideOperations<S, D, P, Q, R, W, N, C> where
    S: Fn(u64, u64) -> u64,
    D: Fn(u64, u64) -> u64,
    P: Fn(u64, u64) -> u64,
    Q: Fn(u64, u64) -> u64,
    R: Fn(u64) -> u64,
    W: Fn(u32) -> u64,
    N: Fn(u64) -> u32,
    C: Fn(u32) -> u64,
 {
    open spec fn total(&self) -> bool {
        &&& wide_combines(self.sum)
        &&& wide_combines(self.difference)
        &&& wide_combines(self.product)
        &&& wide_combines(self.quotient)
        &&& geometry::answers::<u64, u64, R>(self.root)
        &&& geometry::answers::<u32, u64, W>(self.widened)
        &&& geometry::answers::<u64, u32, N>(self.narrowed)
        &&& geometry::answers::<u32, u64, C>(self.count)
    }

    open spec fn spec_sum(&self, a: u64, b: u64) -> u64 {
        wide_combined(self.sum, a, b)
    }

    open spec fn spec_difference(&self, a: u64, b: u64) -> u64 {
        wide_combined(self.difference, a, b)
    }

    open spec fn spec_product(&self, a: u64, b: u64) -> u64 {
        wide_combined(self.product, a, b)
    }

    open spec fn spec_quotient(&self, a: u64, b: u64) -> u64 {
        wide_combined(self.quotient, a, b)
    }

    open spec fn spec_root(&self, a: u64) -> u64 {
        geometry::of(self.root, a)
    }

    open spec fn spec_widened(&self, a: u32) -> u64 {
        geometry::of(self.widened, a)
    }

    open spec fn spec_narrowed(&self, a: u64) -> u32 {
        geometry::of(self.narrowed, a)
    }

    open spec fn spec_count(&self, items: u32) -> u64 {
        geometry::of(self.count, items)
    }

    fn sum(&self, a: u64, b: u64) -> u64 {
        (self.sum)(a, b)
    }

    fn difference(&self, a: u64, b: u64) -> u64 {
        (self.difference)(a, b)
    }

    fn product(&self, a: u64, b: u64) -> u64 {
        (self.product)(a, b)
    }

    fn quotient(&self, a: u64, b: u64) -> u64 {
        (self.quotient)(a, b)
    }

    fn root(&self, a: u64) -> u64 {
        (self.root)(a)
    }

    fn widened(&self, a: u32) -> u64 {
        (self.widened)(a)
    }

    fn narrowed(&self, a: u64) -> u32 {
        (self.narrowed)(a)
    }

    fn count(&self, items: u32) -> u64 {
        (self.count)(items)
    }
}

/// Three coordinates in double precision.
#[derive(Clone, Copy, Debug, PartialEq, Eq, Structural)]
pub struct WidePoint {
    pub x: u64,
    pub y: u64,
    pub z: u64,
}

pub open spec fn widened_point<O: WideArithmetic>(ops: &O, a: Point) -> WidePoint {
    WidePoint {
        x: ops.spec_widened(a.x),
        y: ops.spec_widened(a.y),
        z: ops.spec_widened(a.z),
    }
}

fn widen<O: WideArithmetic>(ops: &O, a: Point) -> (result: WidePoint)
    requires
        ops.total(),
    ensures
        result == widened_point(ops, a),
{
    WidePoint { x: ops.widened(a.x), y: ops.widened(a.y), z: ops.widened(a.z) }
}

pub open spec fn narrowed_point<O: WideArithmetic>(ops: &O, a: WidePoint) -> Point {
    Point { x: ops.spec_narrowed(a.x), y: ops.spec_narrowed(a.y), z: ops.spec_narrowed(a.z) }
}

pub fn narrow<O: WideArithmetic>(ops: &O, a: WidePoint) -> (result: Point)
    requires
        ops.total(),
    ensures
        result == narrowed_point(ops, a),
{
    Point { x: ops.narrowed(a.x), y: ops.narrowed(a.y), z: ops.narrowed(a.z) }
}

pub open spec fn spec_minus<O: WideArithmetic>(ops: &O, a: WidePoint, b: WidePoint) -> WidePoint {
    WidePoint {
        x: ops.spec_difference(a.x, b.x),
        y: ops.spec_difference(a.y, b.y),
        z: ops.spec_difference(a.z, b.z),
    }
}

fn minus<O: WideArithmetic>(ops: &O, a: WidePoint, b: WidePoint) -> (result: WidePoint)
    requires
        ops.total(),
    ensures
        result == spec_minus(ops, a, b),
{
    WidePoint {
        x: ops.difference(a.x, b.x),
        y: ops.difference(a.y, b.y),
        z: ops.difference(a.z, b.z),
    }
}

pub open spec fn spec_dot<O: WideArithmetic>(ops: &O, a: WidePoint, b: WidePoint) -> u64 {
    ops.spec_sum(
        ops.spec_sum(ops.spec_product(a.x, b.x), ops.spec_product(a.y, b.y)),
        ops.spec_product(a.z, b.z),
    )
}

fn dot<O: WideArithmetic>(ops: &O, a: WidePoint, b: WidePoint) -> (result: u64)
    requires
        ops.total(),
    ensures
        result == spec_dot(ops, a, b),
{
    ops.sum(ops.sum(ops.product(a.x, b.x), ops.product(a.y, b.y)), ops.product(a.z, b.z))
}

pub open spec fn spec_cross<O: WideArithmetic>(ops: &O, a: WidePoint, b: WidePoint) -> WidePoint {
    WidePoint {
        x: ops.spec_difference(ops.spec_product(a.y, b.z), ops.spec_product(b.y, a.z)),
        y: ops.spec_difference(ops.spec_product(a.z, b.x), ops.spec_product(b.z, a.x)),
        z: ops.spec_difference(ops.spec_product(a.x, b.y), ops.spec_product(b.x, a.y)),
    }
}

fn cross<O: WideArithmetic>(ops: &O, a: WidePoint, b: WidePoint) -> (result: WidePoint)
    requires
        ops.total(),
    ensures
        result == spec_cross(ops, a, b),
{
    WidePoint {
        x: ops.difference(ops.product(a.y, b.z), ops.product(b.y, a.z)),
        y: ops.difference(ops.product(a.z, b.x), ops.product(b.z, a.x)),
        z: ops.difference(ops.product(a.x, b.y), ops.product(b.x, a.y)),
    }
}

pub open spec fn spec_length<O: WideArithmetic>(ops: &O, a: WidePoint) -> u64 {
    ops.spec_root(spec_dot(ops, a, a))
}

fn length<O: WideArithmetic>(ops: &O, a: WidePoint) -> (result: u64)
    requires
        ops.total(),
    ensures
        result == spec_length(ops, a),
{
    ops.root(dot(ops, a, a))
}

/// The pattern without its sign.
pub open spec fn wide_magnitude(bits: u64) -> u64 {
    if bits >= 0x8000_0000_0000_0000 {
        (bits - 0x8000_0000_0000_0000) as u64
    } else {
        bits
    }
}

fn absolute(bits: u64) -> (result: u64)
    ensures
        result == wide_magnitude(bits),
{
    if bits >= 0x8000_0000_0000_0000 {
        bits - 0x8000_0000_0000_0000
    } else {
        bits
    }
}

/// `a < b` on double-precision numbers; false where either is not a number.
pub open spec fn wide_lt(a: u64, b: u64) -> bool {
    !scalar::wide_nan(a) && !scalar::wide_nan(b) && !scalar::wide_le(b, a)
}

fn is_less(a: u64, b: u64) -> (result: bool)
    ensures
        result == wide_lt(a, b),
{
    !scalar::wide_is_nan(a) && !scalar::wide_is_nan(b) && !scalar::wide_is_at_most(b, a)
}

/// The larger of two numbers, the first where they are equal; what is not a number gives way.
pub open spec fn wide_greatest(a: u64, b: u64) -> u64 {
    if scalar::wide_nan(a) || wide_lt(a, b) {
        b
    } else {
        a
    }
}

fn max(a: u64, b: u64) -> (result: u64)
    ensures
        result == wide_greatest(a, b),
{
    if scalar::wide_is_nan(a) || is_less(a, b) {
        b
    } else {
        a
    }
}

/// The smaller of two numbers, the first where they are equal; what is not a number gives way.
pub open spec fn wide_least(a: u64, b: u64) -> u64 {
    if scalar::wide_nan(a) || wide_lt(b, a) {
        b
    } else {
        a
    }
}

fn min(a: u64, b: u64) -> (result: u64)
    ensures
        result == wide_least(a, b),
{
    if scalar::wide_is_nan(a) || is_less(b, a) {
        b
    } else {
        a
    }
}

/// What is negligible next to a number.
pub open spec fn negligible<O: WideArithmetic>(ops: &O, scale: u64) -> u64 {
    ops.spec_product(ops.spec_product(scale, WIDE_EPSILON), WIDE_SIXTEEN)
}

/// Whether a weight lies outside a triangle.
pub open spec fn outside(weight: u64) -> bool {
    wide_lt(weight, WIDE_WEIGHT_LOW) || wide_lt(WIDE_WEIGHT_HIGH, weight)
}

fn is_outside(weight: u64) -> (result: bool)
    ensures
        result == outside(weight),
{
    is_less(weight, WIDE_WEIGHT_LOW) || is_less(WIDE_WEIGHT_HIGH, weight)
}

/// What a ray does to a triangle where crossings are counted.
///
/// A ray along the plane of the triangle is ambiguous if it lies in it, and a miss otherwise: no
/// shallow crossing is taken for one.
pub open spec fn parity_of<O: WideArithmetic>(
    ops: &O,
    origin: Point,
    direction: Point,
    a: Point,
    b: Point,
    c: Point,
) -> ParityRayIntersection {
    let along = widened_point(ops, direction);
    let corner = widened_point(ops, a);
    let ab = spec_minus(ops, widened_point(ops, b), corner);
    let ac = spec_minus(ops, widened_point(ops, c), corner);
    let perpendicular = spec_cross(ops, along, ac);
    let determinant = spec_dot(ops, ab, perpendicular);
    let scale = ops.spec_product(spec_length(ops, ab), spec_length(ops, perpendicular));
    let offset = spec_minus(ops, widened_point(ops, origin), corner);
    if scalar::wide_le(wide_magnitude(determinant), negligible(ops, scale)) {
        let normal = spec_cross(ops, ab, ac);
        let reach = ops.spec_product(
            spec_length(ops, normal),
            wide_greatest(
                wide_greatest(spec_length(ops, offset), spec_length(ops, ab)),
                spec_length(ops, ac),
            ),
        );
        if scalar::wide_le(wide_magnitude(spec_dot(ops, offset, normal)), negligible(ops, reach)) {
            ParityRayIntersection::Ambiguous
        } else {
            ParityRayIntersection::Miss
        }
    } else {
        let inverse = ops.spec_quotient(WIDE_ONE, determinant);
        let v = ops.spec_product(spec_dot(ops, offset, perpendicular), inverse);
        let turned = spec_cross(ops, offset, ab);
        let w = ops.spec_product(spec_dot(ops, along, turned), inverse);
        let u = ops.spec_difference(ops.spec_difference(WIDE_ONE, v), w);
        let distance = ops.spec_product(spec_dot(ops, ac, turned), inverse);
        if outside(u) || outside(v) || outside(w) {
            ParityRayIntersection::Miss
        } else if wide_lt(distance, WIDE_ZERO) || !scalar::wide_finite(distance) {
            ParityRayIntersection::Miss
        } else {
            ParityRayIntersection::Hit {
                distance,
                minimum_barycentric: wide_least(wide_least(u, v), w),
            }
        }
    }
}

pub fn ray_triangle_for_parity<O: WideArithmetic>(
    ops: &O,
    origin: Point,
    direction: Point,
    a: Point,
    b: Point,
    c: Point,
) -> (result: ParityRayIntersection)
    requires
        ops.total(),
    ensures
        result == parity_of(ops, origin, direction, a, b, c),
{
    let along = widen(ops, direction);
    let corner = widen(ops, a);
    let edge_ab = minus(ops, widen(ops, b), corner);
    let edge_ac = minus(ops, widen(ops, c), corner);
    let perpendicular = cross(ops, along, edge_ac);
    let determinant = dot(ops, edge_ab, perpendicular);
    let scale = ops.product(length(ops, edge_ab), length(ops, perpendicular));
    let offset = minus(ops, widen(ops, origin), corner);
    let flat = ops.product(ops.product(scale, WIDE_EPSILON), WIDE_SIXTEEN);
    if scalar::wide_is_at_most(absolute(determinant), flat) {
        let normal = cross(ops, edge_ab, edge_ac);
        let reach = ops.product(
            length(ops, normal),
            max(max(length(ops, offset), length(ops, edge_ab)), length(ops, edge_ac)),
        );
        let near = ops.product(ops.product(reach, WIDE_EPSILON), WIDE_SIXTEEN);
        return if scalar::wide_is_at_most(absolute(dot(ops, offset, normal)), near) {
            ParityRayIntersection::Ambiguous
        } else {
            ParityRayIntersection::Miss
        };
    }
    let inverse = ops.quotient(WIDE_ONE, determinant);
    let v = ops.product(dot(ops, offset, perpendicular), inverse);
    let turned = cross(ops, offset, edge_ab);
    let w = ops.product(dot(ops, along, turned), inverse);
    let u = ops.difference(ops.difference(WIDE_ONE, v), w);
    if is_outside(u) || is_outside(v) || is_outside(w) {
        return ParityRayIntersection::Miss;
    }
    let distance = ops.product(dot(ops, edge_ac, turned), inverse);
    if is_less(distance, WIDE_ZERO) || !scalar::wide_is_finite(distance) {
        return ParityRayIntersection::Miss;
    }
    ParityRayIntersection::Hit { distance, minimum_barycentric: min(min(u, v), w) }
}

/// The square of twice the area of a triangle.
pub open spec fn area_squared<O: WideArithmetic>(ops: &O, a: Point, b: Point, c: Point) -> u64 {
    let corner = widened_point(ops, a);
    let ab = spec_minus(ops, widened_point(ops, b), corner);
    let ac = spec_minus(ops, widened_point(ops, c), corner);
    let x = ops.spec_difference(ops.spec_product(ab.y, ac.z), ops.spec_product(ab.z, ac.y));
    let y = ops.spec_difference(ops.spec_product(ab.z, ac.x), ops.spec_product(ab.x, ac.z));
    let z = ops.spec_difference(ops.spec_product(ab.x, ac.y), ops.spec_product(ab.y, ac.x));
    ops.spec_sum(
        ops.spec_sum(ops.spec_product(x, x), ops.spec_product(y, y)),
        ops.spec_product(z, z),
    )
}

pub fn triangle_area_squared<O: WideArithmetic>(ops: &O, a: Point, b: Point, c: Point) -> (result:
    u64)
    requires
        ops.total(),
    ensures
        result == area_squared(ops, a, b, c),
{
    let corner = widen(ops, a);
    let ab = minus(ops, widen(ops, b), corner);
    let ac = minus(ops, widen(ops, c), corner);
    let x = ops.difference(ops.product(ab.y, ac.z), ops.product(ab.z, ac.y));
    let y = ops.difference(ops.product(ab.z, ac.x), ops.product(ab.x, ac.z));
    let z = ops.difference(ops.product(ab.x, ac.y), ops.product(ab.y, ac.x));
    ops.sum(ops.sum(ops.product(x, x), ops.product(y, y)), ops.product(z, z))
}

/// How far a point on the surface may seem to be from it by rounding alone.
pub open spec fn roundoff<N: arithmetic::Arithmetic, O: WideArithmetic>(
    narrow: &N,
    ops: &O,
    mesh: Mesh,
    triangle: u32,
    point: Point,
) -> u64 {
    if triangle >= mesh.triangles@.len() || !crate::mesh::corners_exist(
        mesh.triangles@[triangle as int],
        mesh.positions@.len(),
    ) {
        WIDE_ZERO
    } else {
        let corners = mesh.triangles@[triangle as int]@;
        let a = mesh.positions@[corners[0] as int];
        let b = mesh.positions@[corners[1] as int];
        let c = mesh.positions@[corners[2] as int];
        let longest = scalar::greatest(
            scalar::greatest(
                scalar::greatest(
                    arithmetic::spec_distance_squared(narrow, a, b),
                    arithmetic::spec_distance_squared(narrow, b, c),
                ),
                arithmetic::spec_distance_squared(narrow, c, a),
            ),
            arithmetic::spec_distance_squared(narrow, point, a),
        );
        ops.spec_product(
            ops.spec_product(ops.spec_widened(narrow.spec_root(longest)), SINGLE_EPSILON),
            WIDE_EIGHT,
        )
    }
}

pub fn surface_roundoff<N: arithmetic::Arithmetic, O: WideArithmetic>(
    mesh: &Mesh,
    triangle: u32,
    point: Point,
    narrow: &N,
    ops: &O,
) -> (result: u64)
    requires
        narrow.total(),
        ops.total(),
    ensures
        result == roundoff(narrow, ops, *mesh, triangle, point),
{
    if triangle as usize >= mesh.triangles.len() {
        return WIDE_ZERO;
    }
    let corners = mesh.triangles[triangle as usize];
    let count = mesh.positions.len();
    if corners[0] as usize >= count || corners[1] as usize >= count || corners[2] as usize
        >= count {
        return WIDE_ZERO;
    }
    let a = mesh.positions[corners[0] as usize];
    let b = mesh.positions[corners[1] as usize];
    let c = mesh.positions[corners[2] as usize];
    let longest = scalar::max(
        scalar::max(
            scalar::max(
                arithmetic::distance_squared(narrow, a, b),
                arithmetic::distance_squared(narrow, b, c),
            ),
            arithmetic::distance_squared(narrow, c, a),
        ),
        arithmetic::distance_squared(narrow, point, a),
    );
    let scale = ops.widened(narrow.root(longest));
    ops.product(ops.product(scale, SINGLE_EPSILON), WIDE_EIGHT)
}

/// One axis of a grid: the ends of the box moved out by two cells.
pub open spec fn axis_of<O: WideArithmetic>(ops: &O, min: u32, max: u32, voxel: u64) -> GridAxis {
    let padding = ops.spec_product(voxel, WIDE_TWO);
    let low = ops.spec_difference(ops.spec_widened(min), padding);
    let high = ops.spec_sum(ops.spec_widened(max), padding);
    GridAxis {
        low,
        high,
        narrow_low: ops.spec_narrowed(low),
        narrow_high: ops.spec_narrowed(high),
        narrow_low_step: ops.spec_narrowed(ops.spec_sum(low, voxel)),
        narrow_high_step: ops.spec_narrowed(ops.spec_difference(high, voxel)),
    }
}

fn axis<O: WideArithmetic>(ops: &O, min: u32, max: u32, voxel: u64) -> (result: GridAxis)
    requires
        ops.total(),
    ensures
        result == axis_of(ops, min, max, voxel),
{
    let padding = ops.product(voxel, WIDE_TWO);
    let low = ops.difference(ops.widened(min), padding);
    let high = ops.sum(ops.widened(max), padding);
    GridAxis {
        low,
        high,
        narrow_low: ops.narrowed(low),
        narrow_high: ops.narrowed(high),
        narrow_low_step: ops.narrowed(ops.sum(low, voxel)),
        narrow_high_step: ops.narrowed(ops.difference(high, voxel)),
    }
}

/// What a grid over a box comes to: cells as long as the longest axis divided by their number.
pub open spec fn measure_of<N: arithmetic::Arithmetic, O: WideArithmetic>(
    narrow: &N,
    ops: &O,
    request: GridRequest,
) -> GridMeasure {
    let size = arithmetic::spec_minus(narrow, request.max, request.min);
    let longest = ops.spec_widened(scalar::greatest(scalar::greatest(size.x, size.y), size.z));
    let voxel = ops.spec_quotient(longest, ops.spec_count(request.resolution));
    GridMeasure {
        longest_axis: longest,
        voxel_size: voxel,
        x: axis_of(ops, request.min.x, request.max.x, voxel),
        y: axis_of(ops, request.min.y, request.max.y, voxel),
        z: axis_of(ops, request.min.z, request.max.z, voxel),
    }
}

pub fn grid_measure<N: arithmetic::Arithmetic, O: WideArithmetic>(
    request: GridRequest,
    narrow: &N,
    ops: &O,
) -> (result: GridMeasure)
    requires
        narrow.total(),
        ops.total(),
    ensures
        result == measure_of(narrow, ops, request),
{
    let size = arithmetic::minus(narrow, request.max, request.min);
    let longest = ops.widened(scalar::max(scalar::max(size.x, size.y), size.z));
    let voxel = ops.quotient(longest, ops.count(request.resolution));
    GridMeasure {
        longest_axis: longest,
        voxel_size: voxel,
        x: axis(ops, request.min.x, request.max.x, voxel),
        y: axis(ops, request.min.y, request.max.y, voxel),
        z: axis(ops, request.min.z, request.max.z, voxel),
    }
}

} // verus!
