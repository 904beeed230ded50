//! Lemmas about the arithmetic of fixed-point numbers: the order that the
//! operations keep, the bounds of their results, and when they are exact.

use crate::fixed::clamp_raw;
use crate::fixed::floor_sqrt;
use crate::fixed::is_floor_sqrt;
use crate::fixed::lemma_floor_sqrt_exists;
use crate::fixed::magnitude;
use crate::fixed::quotient_toward_zero;
use crate::fixed::Fixed;
use crate::fixed::SCALE;
use vstd::prelude::*;
use vstd::std_specs::ops::AddSpec;
use vstd::std_specs::ops::DivSpec;
use vstd::std_specs::ops::MulSpec;
use vstd::std_specs::ops::NegSpec;

verus! {

/// The square root is not negative, stays below 2^16, and is the root of the
/// raw value times 2^32, rounded down.
pub proof fn lemma_sqrt_is_floor(x: Fixed)
    ensures
        0 <= x.sqrt_spec().raw < 0x1_0000_0000_0000,
        x.raw > 0 ==> is_floor_sqrt(x.raw * SCALE, x.sqrt_spec().raw as int),
{
    if x.raw > 0 {
        let n = x.raw * SCALE;
        assert(0 <= n < 0x8000_0000_0000_0000 * 0x1_0000_0000) by (nonlinear_arith)
            requires
                n == x.raw * 0x1_0000_0000,
                0 < x.raw < 0x8000_0000_0000_0000,
        ;
        lemma_floor_sqrt_exists(n);
        let r = floor_sqrt(n);
        assert(r < 0x1_0000_0000_0000) by (nonlinear_arith)
            requires
                r >= 0,
                r * r <= n,
                n < 0x8000_0000_0000_0000 * 0x1_0000_0000,
        ;
    }
}

/// Rounding toward zero keeps the order of the dividends where the divisor
/// is positive.
pub proof fn lemma_quotient_monotone(m: int, n: int, d: int)
    requires
        m <= n,
        d > 0,
    ensures
        quotient_toward_zero(m, d) <= quotient_toward_zero(n, d),
{
    if m >= 0 {
        vstd::arithmetic::div_mod::lemma_div_is_ordered(m, n, d);
    } else if n < 0 {
        vstd::arithmetic::div_mod::lemma_div_is_ordered(-n, -m, d);
    } else {
        vstd::arithmetic::div_mod::lemma_div_pos_is_pos(-m, d);
        vstd::arithmetic::div_mod::lemma_div_pos_is_pos(n, d);
    }
}

/// Multiplication by a number that is not negative keeps the order of the
/// other factors.
pub proof fn lemma_mul_monotone(x: Fixed, y: Fixed, f: Fixed)
    requires
        x.raw <= y.raw,
        f.raw >= 0,
    ensures
        x.mul_spec(f).raw <= y.mul_spec(f).raw,
        f.mul_spec(x).raw <= f.mul_spec(y).raw,
{
    assert(x.raw * f.raw <= y.raw * f.raw) by (nonlinear_arith)
        requires
            x.raw <= y.raw,
            f.raw >= 0,
    ;
    assert(f.raw * x.raw == x.raw * f.raw) by (nonlinear_arith);
    assert(f.raw * y.raw == y.raw * f.raw) by (nonlinear_arith);
    lemma_quotient_monotone(x.raw * f.raw, y.raw * f.raw, SCALE as int);
}

/// Multiplication does not depend on the order of the factors.
pub proof fn lemma_mul_commutative(a: Fixed, b: Fixed)
    ensures
        a.mul_spec(b) == b.mul_spec(a),
{
    assert(a.raw * b.raw == b.raw * a.raw) by (nonlinear_arith);
}

/// Negating one factor negates the product, where the factor is not the one
/// raw value that has no negation.
pub proof fn lemma_mul_negated(a: Fixed, b: Fixed)
    requires
        b.raw > i64::MIN,
    ensures
        a.mul_spec(b.neg_spec()) == a.mul_spec(b).neg_spec(),
{
    assert(a.raw * (-b.raw) == -(a.raw * b.raw)) by (nonlinear_arith);
}

/// The product of two numbers that are not negative is not negative, and
/// grows with each of them.
pub proof fn lemma_mul_monotone_both(a: Fixed, b: Fixed, c: Fixed, d: Fixed)
    requires
        0 <= a.raw <= b.raw,
        0 <= c.raw <= d.raw,
    ensures
        0 <= a.mul_spec(c).raw <= b.mul_spec(d).raw,
{
    lemma_mul_monotone(a, b, c);
    lemma_mul_monotone(c, d, b);
    lemma_mul_monotone(Fixed { raw: 0 }, a, c);
    assert(0 * c.raw == 0) by (nonlinear_arith);
}

/// A quotient whose dividend is at most as large in magnitude as its
/// positive divisor lies between minus one and one.
pub proof fn lemma_div_at_most_one(x: Fixed, d: Fixed)
    requires
        d.raw > 0,
        -d.raw <= x.raw <= d.raw,
    ensures
        -SCALE <= x.div_spec(d).raw <= SCALE,
{
    let m = magnitude(x.raw as int);
    assert(magnitude(x.raw * SCALE) == m * SCALE && m * SCALE <= d.raw * SCALE && m * SCALE >= 0)
        by (nonlinear_arith)
        requires
            m == magnitude(x.raw as int),
            m <= d.raw,
    ;
    vstd::arithmetic::div_mod::lemma_div_is_ordered(m * SCALE, d.raw * SCALE, d.raw as int);
    assert(d.raw * SCALE == SCALE * d.raw) by (nonlinear_arith);
    vstd::arithmetic::div_mod::lemma_div_multiples_vanish(SCALE as int, d.raw as int);
    assert((d.raw * SCALE) / (d.raw as int) == SCALE) by {
        assert(d.raw * SCALE == d.raw * (SCALE as int));
    }
    vstd::arithmetic::div_mod::lemma_div_pos_is_pos(m * SCALE, d.raw as int);
}

/// The square of a number between minus one and one lies between zero and
/// one.
pub proof fn lemma_square_at_most_one(x: Fixed)
    requires
        -SCALE <= x.raw <= SCALE,
    ensures
        0 <= x.mul_spec(x).raw <= SCALE,
{
    assert(0 <= x.raw * x.raw <= SCALE * SCALE) by (nonlinear_arith)
        requires
            -SCALE <= x.raw <= SCALE,
    ;
    vstd::arithmetic::div_mod::lemma_div_is_ordered(x.raw * x.raw, SCALE * SCALE, SCALE as int);
    vstd::arithmetic::div_mod::lemma_div_multiples_vanish(SCALE as int, SCALE as int);
    vstd::arithmetic::div_mod::lemma_div_pos_is_pos(x.raw * x.raw, SCALE as int);
}

/// Whether the product of `a` and `b` is computed without rounding and
/// without saturation.
pub open spec fn product_is_exact(a: Fixed, b: Fixed) -> bool {
    a.mul_spec(b).raw * SCALE == a.raw * b.raw
}

/// Of two numbers that are not negative and have equal squares, each is the
/// other.
pub proof fn lemma_equal_squares(a: int, b: int)
    requires
        a >= 0,
        b >= 0,
        a * a == b * b,
    ensures
        a == b,
{
    assert(a == b) by (nonlinear_arith)
        requires
            a >= 0,
            b >= 0,
            a * a == b * b,
    ;
}

/// A product with one, minus one or zero is the other factor, its negation
/// or zero.
pub proof fn lemma_mul_by_unit(a: Fixed, u: Fixed)
    requires
        u.raw == SCALE || u.raw == -SCALE || u.raw == 0,
    ensures
        u.raw == SCALE ==> a.mul_spec(u).raw == clamp_raw(a.raw as int),
        u.raw == -SCALE ==> a.mul_spec(u).raw == clamp_raw(-a.raw),
        u.raw == 0 ==> a.mul_spec(u).raw == 0,
{
    if u.raw == SCALE {
        assert(a.raw * u.raw == SCALE * a.raw) by (nonlinear_arith)
            requires
                u.raw == SCALE,
        ;
        vstd::arithmetic::div_mod::lemma_div_multiples_vanish(a.raw as int, SCALE as int);
        vstd::arithmetic::div_mod::lemma_div_multiples_vanish(-a.raw, SCALE as int);
        assert(-(SCALE * a.raw) == SCALE * (-a.raw)) by (nonlinear_arith);
    } else if u.raw == -SCALE {
        assert(a.raw * u.raw == SCALE * (-a.raw)) by (nonlinear_arith)
            requires
                u.raw == -SCALE,
        ;
        vstd::arithmetic::div_mod::lemma_div_multiples_vanish(a.raw as int, SCALE as int);
        vstd::arithmetic::div_mod::lemma_div_multiples_vanish(-a.raw, SCALE as int);
        assert(-(SCALE * (-a.raw)) == SCALE * a.raw) by (nonlinear_arith);
    } else {
        assert(a.raw * u.raw == 0) by (nonlinear_arith)
            requires
                u.raw == 0,
        ;
    }
}

/// The square of a product is the product of the squares.
pub proof fn lemma_product_squared(a: int, b: int)
    ensures
        (a * b) * (a * b) == (a * a) * (b * b),
{
    assert((a * b) * (a * b) == (a * a) * (b * b)) by (nonlinear_arith);
}

} // verus!
