//! What number a bit pattern stands for, and what machine arithmetic makes of numbers.
use crate::arithmetic::Arithmetic;
use crate::scalar;
use vstd::prelude::*;

verus! {

/// A power of two.
pub open spec fn power(exponent: int) -> real
    decreases if exponent < 0 { -exponent } else { exponent },
{
    if exponent == 0 {
        1 as real
    } else if exponent > 0 {
        power(exponent - 1) * (2 as real)
    } else {
        power(exponent + 1) / (2 as real)
    }
}

/// The number that a finite pattern without a sign stands for.
pub open spec fn size(magnitude: int) -> real {
    let exponent = magnitude / 0x80_0000;
    let fraction = (magnitude % 0x80_0000) as real / (0x80_0000 as real);
    if exponent == 0 {
        fraction * power(-126)
    } else {
        (1 as real + fraction) * power(exponent - 127)
    }
}

/// The number that a finite pattern stands for.
#[verifier::opaque]
pub open spec fn value(bits: u32) -> real {
    if bits >= 0x8000_0000 {
        -size(scalar::magnitude(bits))
    } else {
        size(scalar::magnitude(bits))
    }
}

/// Whether a finite pattern stands for a number.
pub open spec fn fits(number: real) -> bool {
    exists|bits: u32| scalar::finite(bits) && #[trigger] value(bits) == number
}

pub proof fn lemma_power_positive(exponent: int)
    ensures
        power(exponent) > 0 as real,
    decreases if exponent < 0 { -exponent } else { exponent },
{
    if exponent > 0 {
        lemma_power_positive(exponent - 1);
    } else if exponent < 0 {
        lemma_power_positive(exponent + 1);
    }
}

pub proof fn lemma_power_next(exponent: int)
    ensures
        power(exponent + 1) == power(exponent) * (2 as real),
{
    if exponent < 0 {
        assert(power(exponent) == power(exponent + 1) / (2 as real));
    }
}

proof fn lemma_size_next(m: int)
    requires
        0 <= m,
    ensures
        size(m) < size(m + 1),
        size(m) >= 0 as real,
        m > 0 ==> size(m) > 0 as real,
{
    let e = m / 0x80_0000;
    let f = m % 0x80_0000;
    lemma_power_positive(-126);
    lemma_power_positive(e - 127);
    lemma_power_positive(e - 126);
    lemma_power_next(e - 127);
    let p = power(e - 127);
    let s = power(-126);
    if f + 1 < 0x80_0000 {
        assert((m + 1) / 0x80_0000 == e && (m + 1) % 0x80_0000 == f + 1);
    } else {
        assert((m + 1) / 0x80_0000 == e + 1 && (m + 1) % 0x80_0000 == 0);
    }
    let a = f as real / (0x80_0000 as real);
    let b = (f + 1) as real / (0x80_0000 as real);
    assert(0 as real <= a < b <= 1 as real);
    assert(a * s < b * s) by (nonlinear_arith)
        requires
            a < b,
            s > 0 as real,
    ;
    assert((1 as real + a) * p < (1 as real + b) * p) by (nonlinear_arith)
        requires
            a < b,
            p > 0 as real,
    ;
    assert(a * s >= 0 as real) by (nonlinear_arith)
        requires
            a >= 0 as real,
            s > 0 as real,
    ;
    assert((1 as real + a) * p > 0 as real) by (nonlinear_arith)
        requires
            a >= 0 as real,
            p > 0 as real,
    ;
    if f + 1 == 0x80_0000 {
        let next = power(e - 126);
        assert((1 as real + 0 as real / (0x80_0000 as real)) * next == next) by (nonlinear_arith);
        assert(e - 127 + 1 == e - 126);
        assert(b == 1 as real);
        assert((1 as real + b) * p == p * (2 as real)) by (nonlinear_arith)
            requires
                b == 1 as real,
        ;
        assert(b * s == s) by (nonlinear_arith)
            requires
                b == 1 as real,
        ;
        assert(size(m + 1) == next);
    }
    if f > 0 {
        assert(a * s > 0 as real) by (nonlinear_arith)
            requires
                a > 0 as real,
                s > 0 as real,
        ;
    }
}

proof fn lemma_size_ordered(a: int, b: int)
    requires
        0 <= a < b,
    ensures
        size(a) < size(b),
    decreases b - a,
{
    lemma_size_next(b - 1);
    if a < b - 1 {
        lemma_size_ordered(a, b - 1);
    }
}

/// Patterns are ordered as the numbers that they stand for.
pub proof fn values_are_ordered(a: u32, b: u32)
    requires
        scalar::finite(a),
        scalar::finite(b),
    ensures
        scalar::le(a, b) <==> value(a) <= value(b),
        scalar::lt(a, b) <==> value(a) < value(b),
        scalar::same(a, b) <==> value(a) == value(b),
{
    reveal(value);
    let m = scalar::magnitude(a);
    let n = scalar::magnitude(b);
    assert(size(0) == 0 as real) by {
        assert(0int / 0x80_0000 == 0 && 0int % 0x80_0000 == 0);
        lemma_power_positive(-126);
        assert(0 as real * power(-126) == 0 as real) by (nonlinear_arith);
    }
    lemma_size_next(m);
    lemma_size_next(n);
    if m < n {
        lemma_size_ordered(m, n);
    } else if n < m {
        lemma_size_ordered(n, m);
    }
    if m > 0 {
        lemma_size_ordered(0, m);
    }
    if n > 0 {
        lemma_size_ordered(0, n);
    }
}

/// A pattern with the other sign stands for the opposite number.
pub proof fn the_sign_is_the_sign(bits: u32)
    ensures
        value(scalar::negated(bits)) == -value(bits),
{
    reveal(value);
}

/// The numbers that some patterns stand for.
pub proof fn constants_mean_what_they_say()
    ensures
        value(scalar::ZERO) == 0 as real,
        value(scalar::ONE) == 1 as real,
        value(scalar::TWO) == 2 as real,
        value(scalar::THREE) == 3 as real,
        value(scalar::HALF) == 1 as real / (2 as real),
{
    reveal(value);
    reveal_with_fuel(power, 3);
    lemma_power_positive(-126);
    let s = power(-126);
    assert(0 as real * s == 0 as real) by (nonlinear_arith);
    assert(size(0) == 0 as real);
    assert(0x3f80_0000int / 0x80_0000 == 127 && 0x3f80_0000int % 0x80_0000 == 0);
    assert(0x4000_0000int / 0x80_0000 == 128 && 0x4000_0000int % 0x80_0000 == 0);
    assert(0x4040_0000int / 0x80_0000 == 128 && 0x4040_0000int % 0x80_0000 == 0x40_0000);
    assert(0x3f00_0000int / 0x80_0000 == 126 && 0x3f00_0000int % 0x80_0000 == 0);
    assert(power(0) == 1 as real);
    assert(power(1) == 2 as real);
    assert(power(-1) == 1 as real / (2 as real));
}

/// Some powers of two.
pub proof fn lemma_powers()
    ensures
        power(0) == 1 as real,
        power(1) == 2 as real,
        power(2) == 4 as real,
        power(3) == 8 as real,
        power(4) == 16 as real,
        power(5) == 32 as real,
        power(6) == 64 as real,
        power(7) == 128 as real,
        power(-1) == 1 as real / (2 as real),
        power(-2) == 1 as real / (4 as real),
        power(-3) == 1 as real / (8 as real),
        power(-4) == 1 as real / (16 as real),
        power(-5) == 1 as real / (32 as real),
        power(-6) == 1 as real / (64 as real),
        power(-7) == 1 as real / (128 as real),
        power(-8) == 1 as real / (256 as real),
        power(-9) == 1 as real / (512 as real),
        power(-10) == 1 as real / (1024 as real),
        power(-11) == 1 as real / (2048 as real),
        power(-12) == 1 as real / (4096 as real),
        power(-13) == 1 as real / (8192 as real),
        power(-14) == 1 as real / (16384 as real),
{
    lemma_power_next(0);
    lemma_power_next(1);
    lemma_power_next(2);
    lemma_power_next(3);
    lemma_power_next(4);
    lemma_power_next(5);
    lemma_power_next(6);
    lemma_power_next(-1);
    lemma_power_next(-2);
    lemma_power_next(-3);
    lemma_power_next(-4);
    lemma_power_next(-5);
    lemma_power_next(-6);
    lemma_power_next(-7);
    lemma_power_next(-8);
    lemma_power_next(-9);
    lemma_power_next(-10);
    lemma_power_next(-11);
    lemma_power_next(-12);
    lemma_power_next(-13);
    lemma_power_next(-14);
}

/// The number that a positive pattern stands for, by its parts.
pub proof fn lemma_value_of(bits: u32, exponent: int, fraction: int)
    requires
        bits < 0x7f80_0000,
        bits == exponent * 0x80_0000 + fraction,
        1 <= exponent,
        0 <= fraction < 0x80_0000,
    ensures
        scalar::finite(bits),
        value(bits) == (1 as real + fraction as real / (0x80_0000 as real)) * power(exponent - 127),
{
    reveal(value);
    assert(bits as int / 0x80_0000 == exponent && bits as int % 0x80_0000 == fraction);
}

/// Whether numbers are rounded to patterns: larger ones to no smaller patterns, and a number that a
/// pattern stands for to that pattern.
pub open spec fn is_rounding(round: spec_fn(real) -> u32) -> bool {
    &&& forall|x: real, y: real| x <= y ==> scalar::le(#[trigger] round(x), #[trigger] round(y))
    &&& forall|bits: u32|
        scalar::finite(bits) ==> scalar::same(round(#[trigger] value(bits)), bits)
}

/// Whether an arithmetic gives what exact results are rounded to, where its operands are finite
/// and none is divided by zero.
#[verifier::opaque]
pub open spec fn rounds<O: Arithmetic>(ops: &O, round: spec_fn(real) -> u32) -> bool {
    &&& is_rounding(round)
    &&& forall|a: u32, b: u32|
        scalar::finite(a) && scalar::finite(b) ==> scalar::same(
            #[trigger] ops.spec_sum(a, b),
            round(value(a) + value(b)),
        )
    &&& forall|a: u32, b: u32|
        scalar::finite(a) && scalar::finite(b) ==> scalar::same(
            #[trigger] ops.spec_difference(a, b),
            round(value(a) - value(b)),
        )
    &&& forall|a: u32, b: u32|
        scalar::finite(a) && scalar::finite(b) ==> scalar::same(
            #[trigger] ops.spec_product(a, b),
            round(value(a) * value(b)),
        )
    &&& forall|a: u32, b: u32|
        scalar::finite(a) && scalar::finite(b) && value(b) != 0 as real ==> scalar::same(
            #[trigger] ops.spec_quotient(a, b),
            round(value(a) / value(b)),
        )
    &&& forall|a: u32, root: real|
        #![trigger ops.spec_root(a), round(root)]
        scalar::finite(a) && root >= 0 as real && root * root == value(a) ==> scalar::same(
            ops.spec_root(a),
            round(root),
        )
    &&& forall|items: usize| scalar::same(#[trigger] ops.spec_count(items), round(items as real))
}

/// What a number is rounded to is as large as the number, where a pattern stands for it.
pub proof fn lemma_round(round: spec_fn(real) -> u32, x: real, y: real)
    requires
        is_rounding(round),
    ensures
        x <= y ==> scalar::le(round(x), round(y)),
        fits(x) ==> scalar::finite(round(x)) && value(round(x)) == x,
{
    if fits(x) {
        let bits = choose|bits: u32| scalar::finite(bits) && #[trigger] value(bits) == x;
        assert(scalar::same(round(value(bits)), bits));
        values_are_ordered(round(x), bits);
    }
}

/// A result that is the same as a rounded number stands for it, where a pattern does.
proof fn lemma_same_as_rounded(round: spec_fn(real) -> u32, bits: u32, x: real)
    requires
        is_rounding(round),
        scalar::same(bits, round(x)),
    ensures
        fits(x) ==> scalar::finite(bits) && value(bits) == x,
{
    lemma_round(round, x, x);
    if fits(x) {
        values_are_ordered(bits, round(x));
    }
}

pub proof fn lemma_sum<O: Arithmetic>(ops: &O, round: spec_fn(real) -> u32, a: u32, b: u32)
    requires
        rounds(ops, round),
        scalar::finite(a),
        scalar::finite(b),
    ensures
        is_rounding(round),
        scalar::same(ops.spec_sum(a, b), round(value(a) + value(b))),
        fits(value(a) + value(b)) ==> scalar::finite(ops.spec_sum(a, b)) && value(
            ops.spec_sum(a, b),
        ) == value(a) + value(b),
{
    reveal(rounds);
    lemma_same_as_rounded(round, ops.spec_sum(a, b), value(a) + value(b));
}

pub proof fn lemma_difference<O: Arithmetic>(ops: &O, round: spec_fn(real) -> u32, a: u32, b: u32)
    requires
        rounds(ops, round),
        scalar::finite(a),
        scalar::finite(b),
    ensures
        is_rounding(round),
        scalar::same(ops.spec_difference(a, b), round(value(a) - value(b))),
        fits(value(a) - value(b)) ==> scalar::finite(ops.spec_difference(a, b)) && value(
            ops.spec_difference(a, b),
        ) == value(a) - value(b),
{
    reveal(rounds);
    lemma_same_as_rounded(round, ops.spec_difference(a, b), value(a) - value(b));
}

pub proof fn lemma_product<O: Arithmetic>(ops: &O, round: spec_fn(real) -> u32, a: u32, b: u32)
    requires
        rounds(ops, round),
        scalar::finite(a),
        scalar::finite(b),
    ensures
        is_rounding(round),
        scalar::same(ops.spec_product(a, b), round(value(a) * value(b))),
        fits(value(a) * value(b)) ==> scalar::finite(ops.spec_product(a, b)) && value(
            ops.spec_product(a, b),
        ) == value(a) * value(b),
{
    reveal(rounds);
    lemma_same_as_rounded(round, ops.spec_product(a, b), value(a) * value(b));
}

pub proof fn lemma_quotient<O: Arithmetic>(ops: &O, round: spec_fn(real) -> u32, a: u32, b: u32)
    requires
        rounds(ops, round),
        scalar::finite(a),
        scalar::finite(b),
        value(b) != 0 as real,
    ensures
        is_rounding(round),
        scalar::same(ops.spec_quotient(a, b), round(value(a) / value(b))),
        fits(value(a) / value(b)) ==> scalar::finite(ops.spec_quotient(a, b)) && value(
            ops.spec_quotient(a, b),
        ) == value(a) / value(b),
{
    reveal(rounds);
    lemma_same_as_rounded(round, ops.spec_quotient(a, b), value(a) / value(b));
}

pub proof fn lemma_root<O: Arithmetic>(ops: &O, round: spec_fn(real) -> u32, a: u32, root: real)
    requires
        rounds(ops, round),
        scalar::finite(a),
        root >= 0 as real,
        root * root == value(a),
    ensures
        is_rounding(round),
        scalar::same(ops.spec_root(a), round(root)),
        fits(root) ==> scalar::finite(ops.spec_root(a)) && value(ops.spec_root(a)) == root,
{
    reveal(rounds);
    lemma_same_as_rounded(round, ops.spec_root(a), root);
}

pub proof fn lemma_count<O: Arithmetic>(ops: &O, round: spec_fn(real) -> u32, items: usize)
    requires
        rounds(ops, round),
    ensures
        is_rounding(round),
        scalar::same(ops.spec_count(items), round(items as real)),
        fits(items as real) ==> scalar::finite(ops.spec_count(items)) && value(
            ops.spec_count(items),
        ) == items as real,
{
    reveal(rounds);
    lemma_same_as_rounded(round, ops.spec_count(items), items as real);
}

} // verus!
