//! Vectors over operations that a caller hands in.
//!
//! Which products and sums a vector operation is made of is said here; what a product or a sum
//! comes to is left to the operations.
use crate::scalar;
use crate::scalar::Point;
use vstd::prelude::*;

verus! {

/// Whether a function can be called on every pair of numbers, and gives each pair one result.
pub open spec fn combines<F: Fn(u32, u32) -> u32>(function: F) -> bool {
    &&& forall|a: u32, b: u32| #[trigger] function.requires((a, b))
    &&& forall|a: u32, b: u32, r: u32, s: u32|
        #[trigger] function.ensures((a, b), r) && #[trigger] function.ensures((a, b), s) ==> r == s
}

/// What such a function gives.
pub open spec fn combined<F: Fn(u32, u32) -> u32>(function: F, a: u32, b: u32) -> u32 {
    choose|r: u32| function.ensures((a, b), r)
}

/// Whether a function can be called on every number, and gives each one result.
pub open spec fn converts<A, F: Fn(A) -> u32>(function: F) -> bool {
    &&& forall|a: A| #[trigger] function.requires((a,))
    &&& forall|a: A, r: u32, s: u32|
        #[trigger] function.ensures((a,), r) && #[trigger] function.ensures((a,), s) ==> r == s
}

/// What such a function gives.
pub open spec fn converted<A, F: Fn(A) -> u32>(function: F, a: A) -> u32 {
    choose|r: u32| function.ensures((a,), r)
}

/// The operations on single-precision numbers.
pub trait Arithmetic: Sized {
    /// Whether every operation can be called, and gives equal arguments equal results.
    spec fn total(&self) -> bool;

    spec fn spec_sum(&self, a: u32, b: u32) -> u32;

    spec fn spec_difference(&self, a: u32, b: u32) -> u32;

    spec fn spec_product(&self, a: u32, b: u32) -> u32;

    spec fn spec_quotient(&self, a: u32, b: u32) -> u32;

    spec fn spec_root(&self, a: u32) -> u32;

    spec fn spec_count(&self, items: usize) -> u32;

    fn sum(&self, a: u32, b: u32) -> (result: u32)
        requires
            self.total(),
        ensures
            result == self.spec_sum(a, b),
    ;

    fn difference(&self, a: u32, b: u32) -> (result: u32)
        requires
            self.total(),
        ensures
            result == self.spec_difference(a, b),
    ;

    fn product(&self, a: u32, b: u32) -> (result: u32)
        requires
            self.total(),
        ensures
            result == self.spec_product(a, b),
    ;

    fn quotient(&self, a: u32, b: u32) -> (result: u32)
        requires
            self.total(),
        ensures
            result == self.spec_quotient(a, b),
    ;

    /// The square root.
    fn root(&self, a: u32) -> (result: u32)
        requires
            self.total(),
        ensures
            result == self.spec_root(a),
    ;

    /// A number of items as a single-precision number.
    fn count(&self, items: usize) -> (result: u32)
        requires
            self.total(),
        ensures
            result == self.spec_count(items),
    ;
}

/// The functions of a caller, one for each operation.
pub struct Operations<S, D, P, Q, R, C> {
    pub sum: S,
    pub difference: D,
    pub product: P,
    pub quotient: Q,
    pub root: R,
    pub count: C,
}

impl<S, D, P, Q, R, C> Arithmetic for Operations<S, D, P, Q, R, C> where
    S: Fn(u32, u32) -> u32,
    D: Fn(u32, u32) -> u32,
    P: Fn(u32, u32) -> u32,
    Q: Fn(u32, u32) -> u32,
    R: Fn(u32) -> u32,
    C: Fn(usize) -> u32,
 {
    open spec fn total(&self) -> bool {
        &&& combines(self.sum)
        &&& combines(self.difference)
        &&& combines(self.product)
        &&& combines(self.quotient)
        &&& converts::<u32, R>(self.root)
        &&& converts::<usize, C>(self.count)
    }

    open spec fn spec_sum(&self, a: u32, b: u32) -> u32 {
        combined(self.sum, a, b)
    }

    open spec fn spec_difference(&self, a: u32, b: u32) -> u32 {
        combined(self.difference, a, b)
    }

    open spec fn spec_product(&self, a: u32, b: u32) -> u32 {
        combined(self.product, a, b)
    }

    open spec fn spec_quotient(&self, a: u32, b: u32) -> u32 {
        combined(self.quotient, a, b)
    }

    open spec fn spec_root(&self, a: u32) -> u32 {
        converted(self.root, a)
    }

    open spec fn spec_count(&self, items: usize) -> u32 {
        converted(self.count, items)
    }

    fn sum(&self, a: u32, b: u32) -> u32 {
        (self.sum)(a, b)
    }

    fn difference(&self, a: u32, b: u32) -> u32 {
        (self.difference)(a, b)
    }

    fn product(&self, a: u32, b: u32) -> u32 {
        (self.product)(a, b)
    }

    fn quotient(&self, a: u32, b: u32) -> u32 {
        (self.quotient)(a, b)
    }

    fn root(&self, a: u32) -> u32 {
        (self.root)(a)
    }

    fn count(&self, items: usize) -> u32 {
        (self.count)(items)
    }
}

/// The zero vector.
pub open spec fn origin() -> Point {
    Point { x: scalar::ZERO, y: scalar::ZERO, z: scalar::ZERO }
}

pub open spec fn spec_plus<O: Arithmetic>(ops: &O, a: Point, b: Point) -> Point {
    Point {
        x: ops.spec_sum(a.x, b.x),
        y: ops.spec_sum(a.y, b.y),
        z: ops.spec_sum(a.z, b.z),
    }
}

pub fn plus<O: Arithmetic>(ops: &O, a: Point, b: Point) -> (result: Point)
    requires
        ops.total(),
    ensures
        result == spec_plus(ops, a, b),
{
    Point { x: ops.sum(a.x, b.x), y: ops.sum(a.y, b.y), z: ops.sum(a.z, b.z) }
}

pub open spec fn spec_minus<O: Arithmetic>(ops: &O, a: Point, b: Point) -> Point {
    Point {
        x: ops.spec_difference(a.x, b.x),
        y: ops.spec_difference(a.y, b.y),
        z: ops.spec_difference(a.z, b.z),
    }
}

pub fn minus<O: Arithmetic>(ops: &O, a: Point, b: Point) -> (result: Point)
    requires
        ops.total(),
    ensures
        result == spec_minus(ops, a, b),
{
    Point {
        x: ops.difference(a.x, b.x),
        y: ops.difference(a.y, b.y),
        z: ops.difference(a.z, b.z),
    }
}

/// A vector, so many times as long.
pub open spec fn spec_times<O: Arithmetic>(ops: &O, a: Point, factor: u32) -> Point {
    Point {
        x: ops.spec_product(a.x, factor),
        y: ops.spec_product(a.y, factor),
        z: ops.spec_product(a.z, factor),
    }
}

pub fn times<O: Arithmetic>(ops: &O, a: Point, factor: u32) -> (result: Point)
    requires
        ops.total(),
    ensures
        result == spec_times(ops, a, factor),
{
    Point {
        x: ops.product(a.x, factor),
        y: ops.product(a.y, factor),
        z: ops.product(a.z, factor),
    }
}

/// A vector divided by a number.
pub open spec fn spec_over<O: Arithmetic>(ops: &O, a: Point, divisor: u32) -> Point {
    Point {
        x: ops.spec_quotient(a.x, divisor),
        y: ops.spec_quotient(a.y, divisor),
        z: ops.spec_quotient(a.z, divisor),
    }
}

pub fn over<O: Arithmetic>(ops: &O, a: Point, divisor: u32) -> (result: Point)
    requires
        ops.total(),
    ensures
        result == spec_over(ops, a, divisor),
{
    Point {
        x: ops.quotient(a.x, divisor),
        y: ops.quotient(a.y, divisor),
        z: ops.quotient(a.z, divisor),
    }
}

pub open spec fn spec_dot<O: Arithmetic>(ops: &O, a: Point, b: Point) -> u32 {
    ops.spec_sum(
        ops.spec_sum(ops.spec_product(a.x, b.x), ops.spec_product(a.y, b.y)),
        ops.spec_product(a.z, b.z),
    )
}

pub fn dot<O: Arithmetic>(ops: &O, a: Point, b: Point) -> (result: u32)
    requires
        ops.total(),
    ensures
        result == spec_dot(ops, a, b),
{
    ops.sum(ops.sum(ops.product(a.x, b.x), ops.product(a.y, b.y)), ops.product(a.z, b.z))
}

pub open spec fn spec_cross<O: Arithmetic>(ops: &O, a: Point, b: Point) -> Point {
    Point {
        x: ops.spec_difference(ops.spec_product(a.y, b.z), ops.spec_product(b.y, a.z)),
        y: ops.spec_difference(ops.spec_product(a.z, b.x), ops.spec_product(b.z, a.x)),
        z: ops.spec_difference(ops.spec_product(a.x, b.y), ops.spec_product(b.x, a.y)),
    }
}

pub fn cross<O: Arithmetic>(ops: &O, a: Point, b: Point) -> (result: Point)
    requires
        ops.total(),
    ensures
        result == spec_cross(ops, a, b),
{
    Point {
        x: ops.difference(ops.product(a.y, b.z), ops.product(b.y, a.z)),
        y: ops.difference(ops.product(a.z, b.x), ops.product(b.z, a.x)),
        z: ops.difference(ops.product(a.x, b.y), ops.product(b.x, a.y)),
    }
}

pub open spec fn spec_length<O: Arithmetic>(ops: &O, a: Point) -> u32 {
    ops.spec_root(spec_dot(ops, a, a))
}

pub fn length<O: Arithmetic>(ops: &O, a: Point) -> (result: u32)
    requires
        ops.total(),
    ensures
        result == spec_length(ops, a),
{
    ops.root(dot(ops, a, a))
}

pub open spec fn spec_distance<O: Arithmetic>(ops: &O, a: Point, b: Point) -> u32 {
    spec_length(ops, spec_minus(ops, a, b))
}

pub fn distance<O: Arithmetic>(ops: &O, a: Point, b: Point) -> (result: u32)
    requires
        ops.total(),
    ensures
        result == spec_distance(ops, a, b),
{
    length(ops, minus(ops, a, b))
}

pub open spec fn spec_distance_squared<O: Arithmetic>(ops: &O, a: Point, b: Point) -> u32 {
    let d = spec_minus(ops, a, b);
    spec_dot(ops, d, d)
}

pub fn distance_squared<O: Arithmetic>(ops: &O, a: Point, b: Point) -> (result: u32)
    requires
        ops.total(),
    ensures
        result == spec_distance_squared(ops, a, b),
{
    let d = minus(ops, a, b);
    dot(ops, d, d)
}

/// The unit vector along a vector, where there is one.
pub open spec fn spec_direction<O: Arithmetic>(ops: &O, a: Point) -> Option<Point> {
    let scale = ops.spec_quotient(scalar::ONE, spec_length(ops, a));
    if scalar::finite(scale) && scalar::lt(scalar::ZERO, scale) {
        Some(spec_times(ops, a, scale))
    } else {
        None
    }
}

pub fn direction<O: Arithmetic>(ops: &O, a: Point) -> (result: Option<Point>)
    requires
        ops.total(),
    ensures
        result == spec_direction(ops, a),
{
    let scale = ops.quotient(scalar::ONE, length(ops, a));
    if scalar::is_finite(scale) && scalar::is_less(scalar::ZERO, scale) {
        Some(times(ops, a, scale))
    } else {
        None
    }
}

/// The unit vector along a vector, or zero.
pub open spec fn spec_unit<O: Arithmetic>(ops: &O, a: Point) -> Point {
    match spec_direction(ops, a) {
        Some(unit) => unit,
        None => origin(),
    }
}

pub fn unit<O: Arithmetic>(ops: &O, a: Point) -> (result: Point)
    requires
        ops.total(),
    ensures
        result == spec_unit(ops, a),
{
    match direction(ops, a) {
        Some(unit) => unit,
        None => Point { x: scalar::ZERO, y: scalar::ZERO, z: scalar::ZERO },
    }
}

pub open spec fn spec_opposite(a: Point) -> Point {
    Point { x: scalar::negated(a.x), y: scalar::negated(a.y), z: scalar::negated(a.z) }
}

pub fn opposite(a: Point) -> (result: Point)
    ensures
        result == spec_opposite(a),
{
    Point { x: scalar::negate(a.x), y: scalar::negate(a.y), z: scalar::negate(a.z) }
}

/// The sum of vectors, added to zero one after the other.
pub open spec fn spec_total<O: Arithmetic>(ops: &O, vectors: Seq<Point>) -> Point
    decreases vectors.len(),
{
    if vectors.len() == 0 {
        origin()
    } else {
        spec_plus(ops, spec_total(ops, vectors.drop_last()), vectors.last())
    }
}

/// Turning a vector round twice gives it back.
pub proof fn opposite_of_opposite(a: Point)
    ensures
        spec_opposite(spec_opposite(a)) == a,
{
}

} // verus!
