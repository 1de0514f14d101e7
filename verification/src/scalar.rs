//! Single-precision numbers, kept as their IEEE 754 bit patterns.
//!
//! Geometry is computed elsewhere; what this crate decides about a coordinate, a distance or a
//! mask weight it decides by comparing, and comparing needs nothing but the bits.
use vstd::prelude::*;

verus! {

/// The bit pattern of `0.0`.
pub const ZERO: u32 = 0;

/// The bit pattern of `1.0`.
pub const ONE: u32 = 0x3f80_0000;

/// The bit pattern of positive infinity.
pub const INFINITY: u32 = 0x7f80_0000;

/// The bit pattern of negative infinity.
pub const NEG_INFINITY: u32 = 0xff80_0000;

/// The bit pattern of the distance between `1.0` and the next larger number.
pub const EPSILON: u32 = 0x3400_0000;

/// The bit pattern of the square of that distance.
pub const EPSILON_SQUARED: u32 = 0x2880_0000;

/// The bit pattern of `0.5`.
pub const HALF: u32 = 0x3f00_0000;

/// The bit pattern of `2.0`.
pub const TWO: u32 = 0x4000_0000;

/// The bit pattern of `3.0`.
pub const THREE: u32 = 0x4040_0000;

/// The pattern without its sign bit.
pub open spec fn magnitude(bits: u32) -> int {
    if bits >= 0x8000_0000 {
        bits - 0x8000_0000
    } else {
        bits as int
    }
}

/// Where a number lies on the number line: for patterns that are numbers, a smaller rank is a
/// smaller number, and the two zeros share rank 0.
pub open spec fn rank(bits: u32) -> int {
    if bits >= 0x8000_0000 {
        -magnitude(bits)
    } else {
        magnitude(bits)
    }
}

/// Where a pattern lies in the total order of all patterns, in which `-0.0` precedes `0.0` and
/// the patterns that are no numbers lie at the two ends.
pub open spec fn total_rank(bits: u32) -> int {
    if bits >= 0x8000_0000 {
        -magnitude(bits) - 1
    } else {
        magnitude(bits)
    }
}

pub open spec fn nan(bits: u32) -> bool {
    magnitude(bits) > 0x7f80_0000
}

pub open spec fn finite(bits: u32) -> bool {
    magnitude(bits) < 0x7f80_0000
}

/// `a < b` on numbers; false where either is not a number.
pub open spec fn lt(a: u32, b: u32) -> bool {
    !nan(a) && !nan(b) && rank(a) < rank(b)
}

/// `a <= b` on numbers; false where either is not a number.
pub open spec fn le(a: u32, b: u32) -> bool {
    !nan(a) && !nan(b) && rank(a) <= rank(b)
}

/// `a == b` on numbers; false where either is not a number, true of the two zeros.
pub open spec fn same(a: u32, b: u32) -> bool {
    !nan(a) && !nan(b) && rank(a) == rank(b)
}

/// The smaller of two numbers, the first where they are equal; what is not a number gives way.
pub open spec fn least(a: u32, b: u32) -> u32 {
    if nan(a) || lt(b, a) {
        b
    } else {
        a
    }
}

/// The larger of two numbers, the first where they are equal; what is not a number gives way.
pub open spec fn greatest(a: u32, b: u32) -> u32 {
    if nan(a) || lt(a, b) {
        b
    } else {
        a
    }
}

/// A finite weight brought into the range from 0 to 1; any other pattern becomes 0.
pub open spec fn unit_weight(bits: u32) -> u32 {
    if !finite(bits) || rank(bits) < 0 {
        ZERO
    } else if rank(bits) > rank(ONE) {
        ONE
    } else {
        bits
    }
}

/// Whether a pattern is a number from 0 to 1.
pub open spec fn in_unit(bits: u32) -> bool {
    finite(bits) && 0 <= rank(bits) <= rank(ONE)
}

fn rank_of(bits: u32) -> (result: i64)
    ensures
        result == rank(bits),
{
    if bits >= 0x8000_0000 {
        -((bits - 0x8000_0000) as i64)
    } else {
        bits as i64
    }
}

fn magnitude_of(bits: u32) -> (result: u32)
    ensures
        result == magnitude(bits),
{
    if bits >= 0x8000_0000 {
        bits - 0x8000_0000
    } else {
        bits
    }
}

pub fn is_nan(bits: u32) -> (result: bool)
    ensures
        result == nan(bits),
{
    magnitude_of(bits) > 0x7f80_0000
}

pub fn is_finite(bits: u32) -> (result: bool)
    ensures
        result == finite(bits),
{
    magnitude_of(bits) < 0x7f80_0000
}

pub fn is_less(a: u32, b: u32) -> (result: bool)
    ensures
        result == lt(a, b),
{
    !is_nan(a) && !is_nan(b) && rank_of(a) < rank_of(b)
}

pub fn is_at_most(a: u32, b: u32) -> (result: bool)
    ensures
        result == le(a, b),
{
    !is_nan(a) && !is_nan(b) && rank_of(a) <= rank_of(b)
}

pub fn is_same(a: u32, b: u32) -> (result: bool)
    ensures
        result == same(a, b),
{
    !is_nan(a) && !is_nan(b) && rank_of(a) == rank_of(b)
}

pub fn min(a: u32, b: u32) -> (result: u32)
    ensures
        result == least(a, b),
{
    if is_nan(a) || is_less(b, a) {
        b
    } else {
        a
    }
}

pub fn max(a: u32, b: u32) -> (result: u32)
    ensures
        result == greatest(a, b),
{
    if is_nan(a) || is_less(a, b) {
        b
    } else {
        a
    }
}

/// Whether `a` comes before `b` in the total order of all patterns.
pub fn precedes(a: u32, b: u32) -> (result: bool)
    ensures
        result == (total_rank(a) < total_rank(b)),
{
    if a >= 0x8000_0000 {
        b < 0x8000_0000 || b < a
    } else {
        b < 0x8000_0000 && a < b
    }
}

pub fn clamp_unit(bits: u32) -> (result: u32)
    ensures
        result == unit_weight(bits),
        in_unit(result),
{
    if !is_finite(bits) || rank_of(bits) < 0 {
        ZERO
    } else if bits < 0x8000_0000 && bits > ONE {
        ONE
    } else {
        bits
    }
}

/// The number nearest to a number within bounds.
pub open spec fn clamped(bits: u32, low: u32, high: u32) -> u32 {
    if lt(bits, low) {
        low
    } else if lt(high, bits) {
        high
    } else {
        bits
    }
}

pub fn clamp(bits: u32, low: u32, high: u32) -> (result: u32)
    ensures
        result == clamped(bits, low, high),
{
    if is_less(bits, low) {
        low
    } else if is_less(high, bits) {
        high
    } else {
        bits
    }
}

/// The pattern with the other sign.
pub open spec fn negated(bits: u32) -> u32 {
    if bits >= 0x8000_0000 {
        (bits - 0x8000_0000) as u32
    } else {
        (bits + 0x8000_0000) as u32
    }
}

pub fn negate(bits: u32) -> (result: u32)
    ensures
        result == negated(bits),
{
    if bits >= 0x8000_0000 {
        bits - 0x8000_0000
    } else {
        bits + 0x8000_0000
    }
}

pub fn absolute(bits: u32) -> (result: u32)
    ensures
        result == magnitude(bits),
{
    magnitude_of(bits)
}

pub fn is_in_unit(bits: u32) -> (result: bool)
    ensures
        result == in_unit(bits),
{
    is_finite(bits) && rank_of(bits) >= 0 && rank_of(bits) <= rank_of(ONE)
}

/// Where a double-precision number lies on the number line, as for single precision.
pub open spec fn wide_rank(bits: u64) -> int {
    if bits >= 0x8000_0000_0000_0000 {
        0x8000_0000_0000_0000 - bits
    } else {
        bits as int
    }
}

pub open spec fn wide_nan(bits: u64) -> bool {
    wide_rank(bits) > 0x7ff0_0000_0000_0000 || wide_rank(bits) < -0x7ff0_0000_0000_0000
}

pub open spec fn wide_finite(bits: u64) -> bool {
    -0x7ff0_0000_0000_0000 < wide_rank(bits) < 0x7ff0_0000_0000_0000
}

/// `a <= b` on double-precision numbers; false where either is not a number.
pub open spec fn wide_le(a: u64, b: u64) -> bool {
    !wide_nan(a) && !wide_nan(b) && wide_rank(a) <= wide_rank(b)
}

fn wide_rank_of(bits: u64) -> (result: i128)
    ensures
        result == wide_rank(bits),
{
    if bits >= 0x8000_0000_0000_0000 {
        0x8000_0000_0000_0000 - (bits as i128)
    } else {
        bits as i128
    }
}

pub fn wide_is_nan(bits: u64) -> (result: bool)
    ensures
        result == wide_nan(bits),
{
    wide_rank_of(bits) > 0x7ff0_0000_0000_0000 || wide_rank_of(bits) < -0x7ff0_0000_0000_0000
}

pub fn wide_is_finite(bits: u64) -> (result: bool)
    ensures
        result == wide_finite(bits),
{
    wide_rank_of(bits) < 0x7ff0_0000_0000_0000 && wide_rank_of(bits) > -0x7ff0_0000_0000_0000
}

/// Whether a pattern lies above zero, infinity and what is no number but has no sign among them.
pub fn wide_is_positive(bits: u64) -> (result: bool)
    ensures
        result == (wide_rank(bits) > 0),
{
    wide_rank_of(bits) > 0
}

pub fn wide_is_at_most(a: u64, b: u64) -> (result: bool)
    ensures
        result == wide_le(a, b),
{
    !wide_is_nan(a) && !wide_is_nan(b) && wide_rank_of(a) <= wide_rank_of(b)
}

/// Three coordinates, a point or a direction.
#[derive(Clone, Copy, Debug, Default, PartialEq, Eq, Hash, Structural)]
pub struct Point {
    pub x: u32,
    pub y: u32,
    pub z: u32,
}

impl Point {
    pub open spec fn finite(self) -> bool {
        finite(self.x) && finite(self.y) && finite(self.z)
    }

    /// Whether every coordinate is a number.
    pub open spec fn number(self) -> bool {
        !nan(self.x) && !nan(self.y) && !nan(self.z)
    }

    /// Equal as numbers, coordinate by coordinate.
    pub open spec fn same(self, other: Point) -> bool {
        same(self.x, other.x) && same(self.y, other.y) && same(self.z, other.z)
    }

    pub open spec fn least(self, other: Point) -> Point {
        Point {
            x: least(self.x, other.x),
            y: least(self.y, other.y),
            z: least(self.z, other.z),
        }
    }

    pub open spec fn greatest(self, other: Point) -> Point {
        Point {
            x: greatest(self.x, other.x),
            y: greatest(self.y, other.y),
            z: greatest(self.z, other.z),
        }
    }

    pub fn new(x: u32, y: u32, z: u32) -> (result: Point)
        ensures
            result == (Point { x, y, z }),
    {
        Point { x, y, z }
    }

    /// The point with the same pattern in all three coordinates.
    pub fn splat(bits: u32) -> (result: Point)
        ensures
            result == (Point { x: bits, y: bits, z: bits }),
    {
        Point { x: bits, y: bits, z: bits }
    }

    pub fn is_finite(&self) -> (result: bool)
        ensures
            result == self.finite(),
    {
        is_finite(self.x) && is_finite(self.y) && is_finite(self.z)
    }

    pub fn is_same(&self, other: &Point) -> (result: bool)
        ensures
            result == self.same(*other),
    {
        is_same(self.x, other.x) && is_same(self.y, other.y) && is_same(self.z, other.z)
    }

    pub fn min(&self, other: &Point) -> (result: Point)
        ensures
            result == self.least(*other),
    {
        Point { x: min(self.x, other.x), y: min(self.y, other.y), z: min(self.z, other.z) }
    }

    pub fn max(&self, other: &Point) -> (result: Point)
        ensures
            result == self.greatest(*other),
    {
        Point { x: max(self.x, other.x), y: max(self.y, other.y), z: max(self.z, other.z) }
    }

    pub open spec fn coordinate(self, axis: int) -> u32 {
        if axis == 0 {
            self.x
        } else if axis == 1 {
            self.y
        } else {
            self.z
        }
    }

    /// The coordinate along axis 0, 1 or 2.
    pub fn axis(&self, axis: usize) -> (result: u32)
        requires
            axis < 3,
        ensures
            result == self.coordinate(axis as int),
    {
        if axis == 0 {
            self.x
        } else if axis == 1 {
            self.y
        } else {
            self.z
        }
    }
}

/// The order on numbers is transitive, and every two numbers are comparable.
pub proof fn comparisons_form_an_order(a: u32, b: u32, c: u32)
    requires
        !nan(a),
        !nan(b),
        !nan(c),
    ensures
        le(a, b) || le(b, a),
        le(a, b) && le(b, c) ==> le(a, c),
        same(a, b) == (le(a, b) && le(b, a)),
        lt(a, b) == !le(b, a),
{
}

/// Distinct patterns have distinct places in the total order.
pub proof fn total_order_separates_patterns(a: u32, b: u32)
    ensures
        total_rank(a) == total_rank(b) ==> a == b,
{
}

} // verus!
