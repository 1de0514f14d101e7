//! What number a double-precision bit pattern stands for, and what wide arithmetic makes of numbers.
use crate::meaning;
use crate::meaning::{power, value};
use crate::scalar;
use crate::wide;
use crate::wide::WideArithmetic;
use vstd::prelude::*;

verus! {

/// The number that a finite pattern without a sign stands for.
pub open spec fn wide_size(magnitude: int) -> real {
    let exponent = magnitude / 0x10_0000_0000_0000;
    let fraction = (magnitude % 0x10_0000_0000_0000) as real / (0x10_0000_0000_0000 as real);
    if exponent == 0 {
        fraction * power(-1022)
    } else {
        (1 as real + fraction) * power(exponent - 1023)
    }
}

/// The number that a finite pattern stands for.
#[verifier::opaque]
pub open spec fn wide_value(bits: u64) -> real {
    if scalar::wide_rank(bits) < 0 {
        -wide_size(-scalar::wide_rank(bits))
    } else {
        wide_size(scalar::wide_rank(bits))
    }
}

/// Whether a finite pattern stands for a number.
pub open spec fn wide_fits(number: real) -> bool {
    exists|bits: u64| scalar::wide_finite(bits) && #[trigger] wide_value(bits) == number
}

/// `a == b` on double-precision numbers.
pub open spec fn wide_same(a: u64, b: u64) -> bool {
    scalar::wide_le(a, b) && scalar::wide_le(b, a)
}

proof fn lemma_wide_size_next(m: int)
    requires
        0 <= m,
    ensures
        wide_size(m) < wide_size(m + 1),
        wide_size(m) >= 0 as real,
        m > 0 ==> wide_size(m) > 0 as real,
{
    let e = m / 0x10_0000_0000_0000;
    let f = m % 0x10_0000_0000_0000;
    meaning::lemma_power_positive(-1022);
    meaning::lemma_power_positive(e - 1023);
    meaning::lemma_power_positive(e - 1022);
    meaning::lemma_power_next(e - 1023);
    let p = power(e - 1023);
    let s = power(-1022);
    if f + 1 < 0x10_0000_0000_0000 {
        assert((m + 1) / 0x10_0000_0000_0000 == e && (m + 1) % 0x10_0000_0000_0000 == f + 1);
    } else {
        assert((m + 1) / 0x10_0000_0000_0000 == e + 1 && (m + 1) % 0x10_0000_0000_0000 == 0);
    }
    let a = f as real / (0x10_0000_0000_0000 as real);
    let b = (f + 1) as real / (0x10_0000_0000_0000 as real);
    assert(0 as real <= a < b <= 1 as real);
    assert(a * s < b * s) by (nonlinear_arith)
        requires
            a < b,
            s > 0 as real,
    ;
    assert((1 as real + a) * p < (1 as real + b) * p) by (nonlinear_arith)
        requires
            a < b,
            p > 0 as real,
    ;
    assert(a * s >= 0 as real) by (nonlinear_arith)
        requires
            a >= 0 as real,
            s > 0 as real,
    ;
    assert((1 as real + a) * p > 0 as real) by (nonlinear_arith)
        requires
            a >= 0 as real,
            p > 0 as real,
    ;
    if f + 1 == 0x10_0000_0000_0000 {
        let next = power(e - 1022);
        assert((1 as real + 0 as real / (0x10_0000_0000_0000 as real)) * next == next) by (nonlinear_arith);
        assert(e - 1023 + 1 == e - 1022);
        assert(b == 1 as real);
        assert((1 as real + b) * p == p * (2 as real)) by (nonlinear_arith)
            requires
                b == 1 as real,
        ;
        assert(b * s == s) by (nonlinear_arith)
            requires
                b == 1 as real,
        ;
        assert(wide_size(m + 1) == next);
    }
    if f > 0 {
        assert(a * s > 0 as real) by (nonlinear_arith)
            requires
                a > 0 as real,
                s > 0 as real,
        ;
    }
}

proof fn lemma_wide_size_ordered(a: int, b: int)
    requires
        0 <= a < b,
    ensures
        wide_size(a) < wide_size(b),
    decreases b - a,
{
    lemma_wide_size_next(b - 1);
    if a < b - 1 {
        lemma_wide_size_ordered(a, b - 1);
    }
}

/// Patterns are ordered as the numbers that they stand for.
pub proof fn wide_values_are_ordered(a: u64, b: u64)
    requires
        scalar::wide_finite(a),
        scalar::wide_finite(b),
    ensures
        scalar::wide_le(a, b) <==> wide_value(a) <= wide_value(b),
        wide::wide_lt(a, b) <==> wide_value(a) < wide_value(b),
        wide_same(a, b) <==> wide_value(a) == wide_value(b),
{
    reveal(wide_value);
    let r = scalar::wide_rank(a);
    let s = scalar::wide_rank(b);
    let m = if r < 0 { -r } else { r };
    let n = if s < 0 { -s } else { s };
    assert(wide_size(0) == 0 as real) by {
        assert(0int / 0x10_0000_0000_0000 == 0 && 0int % 0x10_0000_0000_0000 == 0);
        meaning::lemma_power_positive(-1022);
        assert(0 as real * power(-1022) == 0 as real) by (nonlinear_arith);
    }
    lemma_wide_size_next(m);
    lemma_wide_size_next(n);
    if m < n {
        lemma_wide_size_ordered(m, n);
    } else if n < m {
        lemma_wide_size_ordered(n, m);
    }
    if m > 0 {
        lemma_wide_size_ordered(0, m);
    }
    if n > 0 {
        lemma_wide_size_ordered(0, n);
    }
}

/// The numbers that some patterns stand for.
pub proof fn wide_constants_mean_what_they_say()
    ensures
        wide_value(wide::WIDE_ZERO) == 0 as real,
        wide_value(wide::WIDE_ONE) == 1 as real,
        wide_value(wide::WIDE_TWO) == 2 as real,
        wide_value(wide::WIDE_EIGHT) == 8 as real,
        wide_value(wide::WIDE_SIXTEEN) == 16 as real,
{
    reveal(wide_value);
    reveal_with_fuel(power, 6);
    meaning::lemma_power_positive(-1022);
    let s = power(-1022);
    assert(0 as real / (0x10_0000_0000_0000 as real) * s == 0 as real) by (nonlinear_arith);
    assert(wide_size(0) == 0 as real);
    let z = 0 as real / (0x10_0000_0000_0000 as real);
    assert((1 as real + z) * (1 as real) == 1 as real) by (nonlinear_arith)
        requires
            z == 0 as real,
    ;
    assert((1 as real + z) * (2 as real) == 2 as real) by (nonlinear_arith)
        requires
            z == 0 as real,
    ;
    assert((1 as real + z) * (8 as real) == 8 as real) by (nonlinear_arith)
        requires
            z == 0 as real,
    ;
    assert((1 as real + z) * (16 as real) == 16 as real) by (nonlinear_arith)
        requires
            z == 0 as real,
    ;
}

/// Whether numbers are rounded to patterns: larger ones to no smaller patterns, and a number that a
/// pattern stands for to that pattern.
pub open spec fn is_wide_rounding(round: spec_fn(real) -> u64) -> bool {
    &&& forall|x: real, y: real|
        x <= y ==> scalar::wide_le(#[trigger] round(x), #[trigger] round(y))
    &&& forall|bits: u64|
        scalar::wide_finite(bits) ==> wide_same(round(#[trigger] wide_value(bits)), bits)
}

/// Whether a wide arithmetic gives what exact results are rounded to, where its operands are finite
/// and none is divided by zero, and widens without loss.
#[verifier::opaque]
pub open spec fn wide_rounds<O: WideArithmetic>(ops: &O, round: spec_fn(real) -> u64) -> bool {
    &&& is_wide_rounding(round)
    &&& forall|a: u64, b: u64|
        scalar::wide_finite(a) && scalar::wide_finite(b) ==> wide_same(
            #[trigger] ops.spec_sum(a, b),
            round(wide_value(a) + wide_value(b)),
        )
    &&& forall|a: u64, b: u64|
        scalar::wide_finite(a) && scalar::wide_finite(b) ==> wide_same(
            #[trigger] ops.spec_difference(a, b),
            round(wide_value(a) - wide_value(b)),
        )
    &&& forall|a: u64, b: u64|
        scalar::wide_finite(a) && scalar::wide_finite(b) ==> wide_same(
            #[trigger] ops.spec_product(a, b),
            round(wide_value(a) * wide_value(b)),
        )
    &&& forall|a: u64, b: u64|
        scalar::wide_finite(a) && scalar::wide_finite(b) && wide_value(b) != 0 as real
            ==> wide_same(
            #[trigger] ops.spec_quotient(a, b),
            round(wide_value(a) / wide_value(b)),
        )
    &&& forall|a: u64, root: real|
        #![trigger ops.spec_root(a), round(root)]
        scalar::wide_finite(a) && root >= 0 as real && root * root == wide_value(a) ==> wide_same(
            ops.spec_root(a),
            round(root),
        )
    &&& forall|a: u32|
        scalar::finite(a) ==> scalar::wide_finite(#[trigger] ops.spec_widened(a)) && wide_value(
            ops.spec_widened(a),
        ) == value(a)
    &&& forall|items: u32|
        scalar::wide_finite(#[trigger] ops.spec_count(items)) && wide_value(ops.spec_count(items))
            == items as real
}

pub proof fn lemma_wide_round(round: spec_fn(real) -> u64, x: real, y: real)
    requires
        is_wide_rounding(round),
    ensures
        x <= y ==> scalar::wide_le(round(x), round(y)),
        wide_fits(x) ==> scalar::wide_finite(round(x)) && wide_value(round(x)) == x,
{
    if wide_fits(x) {
        let bits = choose|bits: u64|
            scalar::wide_finite(bits) && #[trigger] wide_value(bits) == x;
        assert(wide_same(round(wide_value(bits)), bits));
        wide_values_are_ordered(round(x), bits);
    }
}

proof fn lemma_wide_same_as_rounded(round: spec_fn(real) -> u64, bits: u64, x: real)
    requires
        is_wide_rounding(round),
        wide_same(bits, round(x)),
    ensures
        wide_fits(x) ==> scalar::wide_finite(bits) && wide_value(bits) == x,
{
    lemma_wide_round(round, x, x);
    if wide_fits(x) {
        wide_values_are_ordered(bits, round(x));
    }
}

pub proof fn lemma_wide_sum<O: WideArithmetic>(ops: &O, round: spec_fn(real) -> u64, a: u64, b: u64)
    requires
        wide_rounds(ops, round),
        scalar::wide_finite(a),
        scalar::wide_finite(b),
    ensures
        is_wide_rounding(round),
        wide_same(ops.spec_sum(a, b), round(wide_value(a) + wide_value(b))),
        wide_fits(wide_value(a) + wide_value(b)) ==> scalar::wide_finite(
            ops.spec_sum(a, b),
        ) && wide_value(ops.spec_sum(a, b)) == wide_value(a) + wide_value(b),
{
    reveal(wide_rounds);
    lemma_wide_same_as_rounded(round, ops.spec_sum(a, b), wide_value(a) + wide_value(b));
}

pub proof fn lemma_wide_difference<O: WideArithmetic>(ops: &O, round: spec_fn(real) -> u64, a: u64, b: u64)
    requires
        wide_rounds(ops, round),
        scalar::wide_finite(a),
        scalar::wide_finite(b),
    ensures
        is_wide_rounding(round),
        wide_same(ops.spec_difference(a, b), round(wide_value(a) - wide_value(b))),
        wide_fits(wide_value(a) - wide_value(b)) ==> scalar::wide_finite(
            ops.spec_difference(a, b),
        ) && wide_value(ops.spec_difference(a, b)) == wide_value(a) - wide_value(b),
{
    reveal(wide_rounds);
    lemma_wide_same_as_rounded(round, ops.spec_difference(a, b), wide_value(a) - wide_value(b));
}

pub proof fn lemma_wide_product<O: WideArithmetic>(ops: &O, round: spec_fn(real) -> u64, a: u64, b: u64)
    requires
        wide_rounds(ops, round),
        scalar::wide_finite(a),
        scalar::wide_finite(b),
    ensures
        is_wide_rounding(round),
        wide_same(ops.spec_product(a, b), round(wide_value(a) * wide_value(b))),
        wide_fits(wide_value(a) * wide_value(b)) ==> scalar::wide_finite(
            ops.spec_product(a, b),
        ) && wide_value(ops.spec_product(a, b)) == wide_value(a) * wide_value(b),
{
    reveal(wide_rounds);
    lemma_wide_same_as_rounded(round, ops.spec_product(a, b), wide_value(a) * wide_value(b));
}

pub proof fn lemma_wide_quotient<O: WideArithmetic>(ops: &O, round: spec_fn(real) -> u64, a: u64, b: u64)
    requires
        wide_rounds(ops, round),
        scalar::wide_finite(a),
        scalar::wide_finite(b),
        wide_value(b) != 0 as real,
    ensures
        is_wide_rounding(round),
        wide_same(ops.spec_quotient(a, b), round(wide_value(a) / wide_value(b))),
        wide_fits(wide_value(a) / wide_value(b)) ==> scalar::wide_finite(
            ops.spec_quotient(a, b),
        ) && wide_value(ops.spec_quotient(a, b)) == wide_value(a) / wide_value(b),
{
    reveal(wide_rounds);
    lemma_wide_same_as_rounded(round, ops.spec_quotient(a, b), wide_value(a) / wide_value(b));
}

pub proof fn lemma_wide_root<O: WideArithmetic>(
    ops: &O,
    round: spec_fn(real) -> u64,
    a: u64,
    root: real,
)
    requires
        wide_rounds(ops, round),
        scalar::wide_finite(a),
        root >= 0 as real,
        root * root == wide_value(a),
    ensures
        is_wide_rounding(round),
        wide_same(ops.spec_root(a), round(root)),
        wide_fits(root) ==> scalar::wide_finite(ops.spec_root(a)) && wide_value(ops.spec_root(a))
            == root,
{
    reveal(wide_rounds);
    lemma_wide_same_as_rounded(round, ops.spec_root(a), root);
}

pub proof fn lemma_widened<O: WideArithmetic>(ops: &O, round: spec_fn(real) -> u64, a: u32)
    requires
        wide_rounds(ops, round),
        scalar::finite(a),
    ensures
        scalar::wide_finite(ops.spec_widened(a)),
        wide_value(ops.spec_widened(a)) == value(a),
{
    reveal(wide_rounds);
}

pub proof fn lemma_wide_count<O: WideArithmetic>(
    ops: &O,
    round: spec_fn(real) -> u64,
    items: u32,
)
    requires
        wide_rounds(ops, round),
    ensures
        scalar::wide_finite(ops.spec_count(items)),
        wide_value(ops.spec_count(items)) == items as real,
{
    reveal(wide_rounds);
}

} // verus!
