//! How near a hit lies to the surface of the sphere, and how long its normal
//! is.
//!
//! The root of the quadratic is computed from exact coefficients and is
//! rounded twice, at the root of the discriminant and at the quotient. The
//! lemmas here follow those two roundings, and the roundings of the point
//! and of the normal after them, through to the length of the normal.

use crate::arithmetic::lemma_product_squared;
use crate::fixed::floor_sqrt;
use crate::fixed::lemma_floor_sqrt_exists;
use crate::fixed::lemma_product_sign;
use crate::fixed::magnitude;
use crate::fixed::quotient_toward_zero;
use crate::fixed::Fixed;
use crate::fixed::RAW_MAX;
use crate::fixed::SCALE;
use crate::material::Material;
use crate::ray::Ray;
use crate::sphere::Sphere;
use crate::vec3::lemma_length_nonnegative;
use crate::vec3::Vec3;
use vstd::prelude::*;

verus! {

/// The square of a sum of two.
proof fn lemma_binomial(u: int, v: int)
    ensures
        (u + v) * (u + v) == u * u + 2 * (u * v) + v * v,
{
    assert((u + v) * (u + v) == u * u + 2 * (u * v) + v * v) by (nonlinear_arith);
}

/// The square of a sum of three.
proof fn lemma_trinomial(u: int, v: int, w: int)
    ensures
        (u + v + w) * (u + v + w) == u * u + v * v + w * w + 2 * (u * v) + 2 * (u * w) + 2 * (v
            * w),
{
    assert((u + v + w) * (u + v + w) == u * u + v * v + w * w + 2 * (u * v) + 2 * (u * w) + 2
        * (v * w)) by (nonlinear_arith);
}

/// The product of two sums of three.
proof fn lemma_product_of_sums(a1: int, a2: int, a3: int, b1: int, b2: int, b3: int)
    ensures
        (a1 + a2 + a3) * (b1 + b2 + b3) == a1 * b1 + a1 * b2 + a1 * b3 + a2 * b1 + a2 * b2 + a2
            * b3 + a3 * b1 + a3 * b2 + a3 * b3,
{
    assert((a1 + a2 + a3) * (b1 + b2 + b3) == a1 * b1 + a1 * b2 + a1 * b3 + a2 * b1 + a2 * b2
        + a2 * b3 + a3 * b1 + a3 * b2 + a3 * b3) by (nonlinear_arith);
}

/// Twice a product of two products is at most the sum of the squares of the
/// crossed products.
proof fn lemma_crossed(x: int, d: int, y: int, e: int)
    ensures
        2 * ((x * d) * (y * e)) <= (d * d) * (y * y) + (e * e) * (x * x),
{
    let p = x * e;
    let q = y * d;
    assert((p - q) * (p - q) >= 0) by (nonlinear_arith);
    lemma_binomial(p, -q);
    assert(p * (-q) == -(p * q) && (-q) * (-q) == q * q) by (nonlinear_arith);
    assert(p * q == (x * d) * (y * e)) by (nonlinear_arith)
        requires
            p == x * e,
            q == y * d,
    ;
    lemma_product_squared(x, e);
    lemma_product_squared(y, d);
    assert((x * x) * (e * e) == (e * e) * (x * x) && (y * y) * (d * d) == (d * d) * (y * y))
        by (nonlinear_arith);
}

/// The inequality of Cauchy and Schwarz: the square of a dot product is at
/// most the product of the squares of the lengths.
pub proof fn lemma_cauchy_schwarz(x1: int, x2: int, x3: int, d1: int, d2: int, d3: int)
    ensures
        (x1 * d1 + x2 * d2 + x3 * d3) * (x1 * d1 + x2 * d2 + x3 * d3) <= (d1 * d1 + d2 * d2 + d3
            * d3) * (x1 * x1 + x2 * x2 + x3 * x3),
{
    lemma_trinomial(x1 * d1, x2 * d2, x3 * d3);
    lemma_product_of_sums(d1 * d1, d2 * d2, d3 * d3, x1 * x1, x2 * x2, x3 * x3);
    lemma_crossed(x1, d1, x2, d2);
    lemma_crossed(x1, d1, x3, d3);
    lemma_crossed(x2, d2, x3, d3);
    lemma_product_squared(x1, d1);
    lemma_product_squared(x2, d2);
    lemma_product_squared(x3, d3);
    assert((x1 * x1) * (d1 * d1) == (d1 * d1) * (x1 * x1) && (x2 * x2) * (d2 * d2) == (d2 * d2)
        * (x2 * x2) && (x3 * x3) * (d3 * d3) == (d3 * d3) * (x3 * x3)) by (nonlinear_arith);
}

/// A quotient rounded toward zero, times the divisor, misses the dividend
/// by less than the divisor.
pub proof fn lemma_quotient_remainder(n: int, a: int)
    requires
        a > 0,
    ensures
        -a < a * quotient_toward_zero(n, a) - n < a,
{
    let m = magnitude(n);
    vstd::arithmetic::div_mod::lemma_fundamental_div_mod(m, a);
    vstd::arithmetic::div_mod::lemma_mod_bound(m, a);
    assert(a * (-(m / a)) == -(a * (m / a))) by (nonlinear_arith);
}

/// The parameter of a hit solves the quadratic up to its two roundings.
/// With the coefficients `a`, `hb` and the discriminant `disc`, a root `sq`
/// of the discriminant that is rounded down, and a parameter `t` whose
/// product with `a` misses `s (-hb + sign sq)` by less than `a`, the square
/// of `a t + s hb` misses `s^2 disc` by the bounds stated.
proof fn lemma_residual(a: int, t: int, s: int, hb: int, sq: int, disc: int, sign: int)
    requires
        a > 0,
        s > 0,
        sq >= 0,
        sq * sq <= disc,
        disc < (sq + 1) * (sq + 1),
        sign == 1 || sign == -1,
        -a < a * t - (-hb + sign * sq) * s < a,
    ensures
        (a * t + s * hb) * (a * t + s * hb) - (s * s) * disc <= 2 * s * sq * a + a * a,
        (a * t + s * hb) * (a * t + s * hb) - (s * s) * disc >= -((s * s) * (2 * sq + 1) + 2 * s
            * sq * a),
{
    assert((sq + 1) * (sq + 1) == sq * sq + 2 * sq + 1) by (nonlinear_arith);
    let e = a * t + s * hb;
    let rho = e - sign * (s * sq);
    assert(rho == a * t - (-hb + sign * sq) * s) by (nonlinear_arith)
        requires
            e == a * t + s * hb,
            rho == e - sign * (s * sq),
    ;
    let base = s * sq;
    assert(base >= 0) by (nonlinear_arith)
        requires
            base == s * sq,
            s > 0,
            sq >= 0,
    ;
    assert(e * e == base * base + 2 * ((sign * base) * rho) + rho * rho) by (nonlinear_arith)
        requires
            e == sign * base + rho,
            sign == 1 || sign == -1,
    ;
    assert(base * base == (s * s) * (sq * sq)) by {
        lemma_product_squared(s, sq);
    }
    assert(0 <= rho * rho < a * a) by (nonlinear_arith)
        requires
            -a < rho < a,
    ;
    assert(-(base * a) <= (sign * base) * rho <= base * a) by (nonlinear_arith)
        requires
            -a < rho < a,
            base >= 0,
            sign == 1 || sign == -1,
    ;
    assert((s * s) * (sq * sq) <= (s * s) * disc && (s * s) * disc <= (s * s) * (sq * sq) + (s
        * s) * (2 * sq)) by (nonlinear_arith)
        requires
            sq * sq <= disc,
            disc <= sq * sq + 2 * sq,
            s > 0,
    ;
    assert((s * s) * (2 * sq + 1) == (s * s) * (2 * sq) + s * s && 2 * s * sq * a == 2 * (base
        * a)) by (nonlinear_arith)
        requires
            base == s * sq,
    ;
    assert(s * s >= 0) by (nonlinear_arith);
}

/// The identity behind the quadratic: with `qq` the square of the distance
/// of the point at parameter `t` from the centre, scaled by `s`,
/// `a (qq - s^2 r^2) = (a t + s hb)^2 - s^2 disc`.
proof fn lemma_point_identity(a: int, t: int, s: int, hb: int, xx: int, rr: int, qq: int, disc: int)
    requires
        qq == (s * s) * xx + 2 * (s * t) * hb + (t * t) * a,
        disc == hb * hb - a * (xx - rr),
    ensures
        a * (qq - (s * s) * rr) == (a * t + s * hb) * (a * t + s * hb) - (s * s) * disc,
{
    let ss = s * s;
    lemma_binomial(a * t, s * hb);
    lemma_product_squared(s, hb);
    assert((a * t) * (a * t) == a * ((t * t) * a)) by (nonlinear_arith);
    assert(2 * ((a * t) * (s * hb)) == a * (2 * (s * t) * hb)) by (nonlinear_arith);
    assert(a * qq == a * (ss * xx) + a * (2 * (s * t) * hb) + a * ((t * t) * a))
        by (nonlinear_arith)
        requires
            qq == ss * xx + 2 * (s * t) * hb + (t * t) * a,
    ;
    assert(ss * disc == ss * (hb * hb) - ss * (a * (xx - rr))) by (nonlinear_arith)
        requires
            disc == hb * hb - a * (xx - rr),
    ;
    assert(ss * (a * (xx - rr)) == a * (ss * xx) - a * (ss * rr)) by (nonlinear_arith);
    assert(a * (qq - ss * rr) == a * qq - a * (ss * rr)) by (nonlinear_arith);
}

/// The point at the parameter of a hit lies on the sphere up to rounding.
/// With `qq` the exact square of the distance of the point from the centre
/// (in units of 2^-128), `r` the radius and `d` a bound above the length
/// of the direction, `qq` misses `s^2 r^2` by at most
/// `4 r s^2 + 2 s d r + d^2`.
pub proof fn lemma_root_near_sphere(
    a: int,
    t: int,
    hb: int,
    xx: int,
    r: int,
    qq: int,
    sq: int,
    sign: int,
    d: int,
)
    requires
        a > 0,
        r >= 1,
        d >= 0,
        a < d * d,
        hb * hb <= a * xx,
        sq >= 0,
        sq * sq <= hb * hb - a * (xx - r * r),
        hb * hb - a * (xx - r * r) < (sq + 1) * (sq + 1),
        sign == 1 || sign == -1,
        t == quotient_toward_zero((-hb + sign * sq) * SCALE, a),
        qq == (SCALE * SCALE) * xx + 2 * (SCALE * t) * hb + (t * t) * a,
    ensures
        qq - (SCALE * SCALE) * (r * r) <= 2 * SCALE * d * r + d * d,
        qq - (SCALE * SCALE) * (r * r) >= -(4 * r * (SCALE * SCALE) + 2 * SCALE * d * r),
{
    let s = SCALE as int;
    let rr = r * r;
    let disc = hb * hb - a * (xx - rr);
    lemma_quotient_remainder((-hb + sign * sq) * s, a);
    lemma_residual(a, t, s, hb, sq, disc, sign);
    lemma_point_identity(a, t, s, hb, xx, rr, qq, disc);
    let y = qq - (s * s) * rr;
    // sq < d r, by the inequality of Cauchy and Schwarz
    assert(disc <= a * rr) by (nonlinear_arith)
        requires
            disc == hb * hb - a * (xx - rr),
            hb * hb <= a * xx,
    ;
    assert(sq < d * r) by (nonlinear_arith)
        requires
            sq >= 0,
            d >= 0,
            r >= 1,
            sq * sq <= a * (r * r),
            a < d * d,
            a > 0,
    ;
    assert(sq <= a * r) by (nonlinear_arith)
        requires
            sq >= 0,
            r >= 1,
            a >= 1,
            sq * sq <= a * (r * r),
    ;
    // upper bound: a y <= 2 s sq a + a a
    assert(y <= 2 * s * sq + a) by (nonlinear_arith)
        requires
            a > 0,
            a * y <= 2 * s * sq * a + a * a,
    ;
    assert(2 * s * sq + a <= 2 * s * d * r + d * d) by (nonlinear_arith)
        requires
            sq < d * r,
            a < d * d,
            s > 0,
    ;
    // lower bound: a y >= -(s s (2 sq + 1) + 2 s sq a) and 2 sq + 1 <= 4 r a
    assert((s * s) * (2 * sq + 1) <= a * (4 * r * (s * s))) by (nonlinear_arith)
        requires
            sq <= a * r,
            a >= 1,
            r >= 1,
            s > 0,
    ;
    assert(y >= -(4 * r * (s * s) + 2 * s * sq)) by (nonlinear_arith)
        requires
            a > 0,
            a * y >= -((s * s) * (2 * sq + 1) + 2 * s * sq * a),
            (s * s) * (2 * sq + 1) <= a * (4 * r * (s * s)),
    ;
    assert(2 * s * sq <= 2 * s * d * r) by (nonlinear_arith)
        requires
            sq < d * r,
            s > 0,
    ;
}

/// The magnitude of a quotient rounded toward zero, times the divisor, is
/// at most the magnitude of the dividend and misses it by less than the
/// divisor.
pub proof fn lemma_quotient_magnitude(n: int, a: int)
    requires
        a > 0,
    ensures
        magnitude(quotient_toward_zero(n, a)) * a <= magnitude(n),
        magnitude(n) < magnitude(quotient_toward_zero(n, a)) * a + a,
        magnitude(quotient_toward_zero(n, a)) >= 0,
{
    let m = magnitude(n);
    vstd::arithmetic::div_mod::lemma_fundamental_div_mod(m, a);
    vstd::arithmetic::div_mod::lemma_mod_bound(m, a);
    vstd::arithmetic::div_mod::lemma_div_pos_is_pos(m, a);
    assert(a * (m / a) == (m / a) * a) by (nonlinear_arith);
}

/// The square of one component of the point, seen from the centre.
proof fn lemma_point_component(s: int, x: int, t: int, d: int)
    ensures
        (s * x + t * d) * (s * x + t * d) == (s * s) * (x * x) + 2 * ((s * t) * (x * d)) + (t * t)
            * (d * d),
{
    lemma_binomial(s * x, t * d);
    lemma_product_squared(s, x);
    lemma_product_squared(t, d);
    assert((s * x) * (t * d) == (s * t) * (x * d)) by (nonlinear_arith);
}

/// A number whose square is at most the square of a bound lies within the
/// bound.
proof fn lemma_root_of_bound(x: int, b: int)
    requires
        b >= 0,
        x * x <= b * b,
    ensures
        -b <= x <= b,
{
    assert(-b <= x <= b) by (nonlinear_arith)
        requires
            b >= 0,
            x * x <= b * b,
    ;
}

/// What rounding a component of the point does to its square: with `q` the
/// exact component and `b` the rounded one, both scaled, which differ by
/// less than `s`, and `b` at most `2 s r + s` in magnitude.
proof fn lemma_rounded_component(q: int, b: int, s: int, r: int)
    requires
        s > 0,
        r >= 1,
        -s < b - q < s,
        -(2 * s * r) <= q <= 2 * s * r,
    ensures
        -(4 * (s * s) * r + s * s) <= b * b - q * q <= 4 * (s * s) * r + s * s,
{
    let h = b - q;
    lemma_binomial(q, h);
    assert(b * b == (q + h) * (q + h));
    assert(2 * (2 * (s * s) * r) == 4 * (s * s) * r) by (nonlinear_arith);
    assert(0 <= h * h <= s * s) by (nonlinear_arith)
        requires
            -s < h < s,
    ;
    assert(-(2 * (s * s) * r) <= q * h <= 2 * (s * s) * r) by (nonlinear_arith)
        requires
            -s < h < s,
            -(2 * s * r) <= q <= 2 * s * r,
            s > 0,
            r >= 1,
    ;
}

/// The square of the length of the normal of a hit is one up to rounding.
/// All quantities are raw: `x` is the origin of the ray seen from the
/// centre, `d` its direction, `t` the parameter of the hit, `m` the
/// displacement `t d` rounded, `rel` the point seen from the centre, and
/// `out` the normal, whose exact sum of squares is `norm`. With `bound` a
/// bound above the length of the direction, `norm` misses `2^64` by at most
/// `16 r 2^64 + 2^33 bound r + bound^2 + 3 2^64 + 12 2^32 r^2` over `r^2`.
pub proof fn lemma_normal_norm(
    x: (int, int, int),
    d: (int, int, int),
    t: int,
    r: int,
    bound: int,
    sq: int,
    sign: int,
    m: (int, int, int),
    rel: (int, int, int),
    out: (int, int, int),
    norm: int,
)
    requires
        d.0 * d.0 + d.1 * d.1 + d.2 * d.2 > 0,
        r >= 1,
        bound >= 0,
        d.0 * d.0 + d.1 * d.1 + d.2 * d.2 < bound * bound,
        bound <= SCALE * r,
        sq >= 0,
        sign == 1 || sign == -1,
        ({
            let a = d.0 * d.0 + d.1 * d.1 + d.2 * d.2;
            let hb = x.0 * d.0 + x.1 * d.1 + x.2 * d.2;
            let xx = x.0 * x.0 + x.1 * x.1 + x.2 * x.2;
            &&& sq * sq <= hb * hb - a * (xx - r * r)
            &&& hb * hb - a * (xx - r * r) < (sq + 1) * (sq + 1)
            &&& t == quotient_toward_zero((-hb + sign * sq) * SCALE, a)
        }),
        m.0 == quotient_toward_zero(t * d.0, SCALE as int),
        m.1 == quotient_toward_zero(t * d.1, SCALE as int),
        m.2 == quotient_toward_zero(t * d.2, SCALE as int),
        rel.0 == x.0 + m.0,
        rel.1 == x.1 + m.1,
        rel.2 == x.2 + m.2,
        out.0 == quotient_toward_zero(rel.0 * SCALE, r),
        out.1 == quotient_toward_zero(rel.1 * SCALE, r),
        out.2 == quotient_toward_zero(rel.2 * SCALE, r),
        norm == out.0 * out.0 + out.1 * out.1 + out.2 * out.2,
    ensures
        (norm - SCALE * SCALE) * (r * r) <= normal_tolerance(r, bound),
        (SCALE * SCALE - norm) * (r * r) <= normal_tolerance(r, bound),
        -(2 * r) <= rel.0 <= 2 * r,
        -(2 * r) <= rel.1 <= 2 * r,
        -(2 * r) <= rel.2 <= 2 * r,
{
    let s = SCALE as int;
    let ss = s * s;
    let a = d.0 * d.0 + d.1 * d.1 + d.2 * d.2;
    let hb = x.0 * d.0 + x.1 * d.1 + x.2 * d.2;
    let xx = x.0 * x.0 + x.1 * x.1 + x.2 * x.2;
    lemma_cauchy_schwarz(x.0, x.1, x.2, d.0, d.1, d.2);
    let q = (s * x.0 + t * d.0, s * x.1 + t * d.1, s * x.2 + t * d.2);
    let qq = q.0 * q.0 + q.1 * q.1 + q.2 * q.2;
    lemma_point_component(s, x.0, t, d.0);
    lemma_point_component(s, x.1, t, d.1);
    lemma_point_component(s, x.2, t, d.2);
    assert(ss * xx == ss * (x.0 * x.0) + ss * (x.1 * x.1) + ss * (x.2 * x.2)) by (nonlinear_arith)
        requires
            xx == x.0 * x.0 + x.1 * x.1 + x.2 * x.2,
    ;
    assert((s * t) * hb == (s * t) * (x.0 * d.0) + (s * t) * (x.1 * d.1) + (s * t) * (x.2 * d.2))
        by (nonlinear_arith)
        requires
            hb == x.0 * d.0 + x.1 * d.1 + x.2 * d.2,
    ;
    assert((t * t) * a == (t * t) * (d.0 * d.0) + (t * t) * (d.1 * d.1) + (t * t) * (d.2 * d.2))
        by (nonlinear_arith)
        requires
            a == d.0 * d.0 + d.1 * d.1 + d.2 * d.2,
    ;
    assert(2 * (s * t) * hb == 2 * ((s * t) * hb)) by (nonlinear_arith);
    assert(qq == ss * xx + 2 * (s * t) * hb + (t * t) * a);
    lemma_root_near_sphere(a, t, hb, xx, r, qq, sq, sign, bound);
    // each component of the exact point is at most 2 s r
    let rr = r * r;
    assert(2 * s * bound * r <= 2 * (ss * rr) && bound * bound <= ss * rr && (2 * s * r) * (2 * s
        * r) == 4 * (ss * rr)) by (nonlinear_arith)
        requires
            0 <= bound <= s * r,
            s > 0,
            r >= 1,
            ss == s * s,
            rr == r * r,
    ;
    assert(q.0 * q.0 >= 0 && q.1 * q.1 >= 0 && q.2 * q.2 >= 0) by (nonlinear_arith);
    assert(2 * s * r >= 0) by (nonlinear_arith)
        requires
            s > 0,
            r >= 1,
    ;
    lemma_root_of_bound(q.0, 2 * s * r);
    lemma_root_of_bound(q.1, 2 * s * r);
    lemma_root_of_bound(q.2, 2 * s * r);
    // the rounded point
    lemma_quotient_remainder(t * d.0, s);
    lemma_quotient_remainder(t * d.1, s);
    lemma_quotient_remainder(t * d.2, s);
    let b = (s * rel.0, s * rel.1, s * rel.2);
    assert(b.0 - q.0 == s * m.0 - t * d.0 && b.1 - q.1 == s * m.1 - t * d.1 && b.2 - q.2 == s
        * m.2 - t * d.2) by (nonlinear_arith)
        requires
            b.0 == s * (x.0 + m.0),
            b.1 == s * (x.1 + m.1),
            b.2 == s * (x.2 + m.2),
            q.0 == s * x.0 + t * d.0,
            q.1 == s * x.1 + t * d.1,
            q.2 == s * x.2 + t * d.2,
    ;
    lemma_rounded_component(q.0, b.0, s, r);
    lemma_rounded_component(q.1, b.1, s, r);
    lemma_rounded_component(q.2, b.2, s, r);
    lemma_product_squared(s, rel.0);
    lemma_product_squared(s, rel.1);
    lemma_product_squared(s, rel.2);
    let n = rel.0 * rel.0 + rel.1 * rel.1 + rel.2 * rel.2;
    assert(ss * n == ss * (rel.0 * rel.0) + ss * (rel.1 * rel.1) + ss * (rel.2 * rel.2))
        by (nonlinear_arith)
        requires
            n == rel.0 * rel.0 + rel.1 * rel.1 + rel.2 * rel.2,
    ;
    // the components of the rounded point are at most 2 r
    assert(-(2 * r) <= rel.0 <= 2 * r && -(2 * r) <= rel.1 <= 2 * r && -(2 * r) <= rel.2 <= 2
        * r) by (nonlinear_arith)
        requires
            s > 0,
            -(2 * s * r) - s < s * rel.0 < 2 * s * r + s,
            -(2 * s * r) - s < s * rel.1 < 2 * s * r + s,
            -(2 * s * r) - s < s * rel.2 < 2 * s * r + s,
    ;
    // the normal
    lemma_quotient_magnitude(rel.0 * s, r);
    lemma_quotient_magnitude(rel.1 * s, r);
    lemma_quotient_magnitude(rel.2 * s, r);
    lemma_product_sign(rel.0, s);
    lemma_product_sign(rel.1, s);
    lemma_product_sign(rel.2, s);
    let (x0, x1, x2) = (magnitude(rel.0), magnitude(rel.1), magnitude(rel.2));
    let (u0, u1, u2) = (magnitude(out.0), magnitude(out.1), magnitude(out.2));
    assert(magnitude(s) == s);
    assert(n == x0 * x0 + x1 * x1 + x2 * x2 && norm == u0 * u0 + u1 * u1 + u2 * u2)
        by (nonlinear_arith)
        requires
            n == rel.0 * rel.0 + rel.1 * rel.1 + rel.2 * rel.2,
            norm == out.0 * out.0 + out.1 * out.1 + out.2 * out.2,
            x0 == magnitude(rel.0),
            x1 == magnitude(rel.1),
            x2 == magnitude(rel.2),
            u0 == magnitude(out.0),
            u1 == magnitude(out.1),
            u2 == magnitude(out.2),
    ;
    crate::accuracy::lemma_unit_norm_above(x0, x1, x2, u0, u1, u2, r, n, norm);
    crate::accuracy::lemma_unit_norm_below(x0, x1, x2, u0, u1, u2, r, n, norm);
    assert(2 * (x0 + x1 + x2) * s * r <= 12 * s * rr) by (nonlinear_arith)
        requires
            0 <= x0 + x1 + x2 <= 6 * r,
            s > 0,
            r >= 1,
            rr == r * r,
    ;
    assert(n * ss == ss * n && (norm - ss) * rr == norm * rr - ss * rr && (ss - norm) * rr == ss
        * rr - norm * rr) by (nonlinear_arith);
    assert(4 * r * ss == 4 * ss * r) by (nonlinear_arith);
}

/// The tolerance of `lemma_normal_norm`.
pub open spec fn normal_tolerance(r: int, bound: int) -> int {
    16 * (SCALE * SCALE) * r + 2 * SCALE * bound * r + bound * bound + 3 * (SCALE * SCALE) + 12
        * SCALE * (r * r)
}

/// The largest raw magnitude of a component that the lemma on the normal
/// covers: 2^46, which stands for 16384.
pub const MODERATE_RAW: i64 = 0x4000_0000_0000;

/// The smallest raw radius that the lemma on the normal covers: 2^16, which
/// stands for 2^-16.
pub const RADIUS_MIN_RAW: i64 = 0x1_0000;

/// Whether no component has a magnitude above 16384.
pub open spec fn moderate(a: Vec3) -> bool {
    &&& -MODERATE_RAW <= a.x.raw <= MODERATE_RAW
    &&& -MODERATE_RAW <= a.y.raw <= MODERATE_RAW
    &&& -MODERATE_RAW <= a.z.raw <= MODERATE_RAW
}

/// Whether the sphere and the ray are of moderate size: no coordinate above
/// 16384 in magnitude, and a radius from 2^-16 to 16384.
pub open spec fn tame<T: Material>(sphere: &Sphere<T>, ray: Ray) -> bool {
    &&& moderate(ray.origin)
    &&& moderate(ray.direction)
    &&& moderate(sphere.center)
    &&& RADIUS_MIN_RAW <= sphere.radius.raw <= MODERATE_RAW
}

/// The square of a moderate raw value is at most 2^92.
proof fn lemma_moderate_product(a: int, b: int)
    requires
        -0x8000_0000_0000 <= a <= 0x8000_0000_0000,
        -0x8000_0000_0000 <= b <= 0x8000_0000_0000,
    ensures
        -0x4000_0000_0000_0000_0000_0000 <= a * b <= 0x4000_0000_0000_0000_0000_0000,
{
    assert(-0x4000_0000_0000_0000_0000_0000 <= a * b <= 0x4000_0000_0000_0000_0000_0000)
        by (nonlinear_arith)
        requires
            -0x8000_0000_0000 <= a <= 0x8000_0000_0000,
            -0x8000_0000_0000 <= b <= 0x8000_0000_0000,
    ;
}

/// The normal of a hit is one long up to rounding. For a sphere and a ray
/// of moderate size, and a root of the quadratic that is not saturated, the
/// exact sum of the squares of the normal at the root (the square of its
/// length, in units of 2^-64) misses 2^64 by at most the tolerance over the
/// square of the radius: about `(16 + 2 |D|) / r` of one, for a direction
/// `D` and a raw radius `r`.
pub proof fn lemma_hit_normal_length<T: Material>(sphere: &Sphere<T>, ray: Ray, far: bool)
    requires
        tame(sphere, ray),
        sphere.discriminant(ray) >= 0,
        ray.direction.norm_spec() > 0,
        -RAW_MAX < hit_root(sphere, ray, far).raw < RAW_MAX,
    ensures
        (sphere.record_at(ray, hit_root(sphere, ray, far)).normal.norm_spec() - SCALE * SCALE) * (
        sphere.radius.raw * sphere.radius.raw) <= normal_tolerance(
            sphere.radius.raw as int,
            ray.direction.length_spec().raw + 1,
        ),
        (SCALE * SCALE - sphere.record_at(ray, hit_root(sphere, ray, far)).normal.norm_spec()) * (
        sphere.radius.raw * sphere.radius.raw) <= normal_tolerance(
            sphere.radius.raw as int,
            ray.direction.length_spec().raw + 1,
        ),
        (sphere.record_at(ray, hit_root(sphere, ray, far)).normal.length_spec().raw - SCALE)
            * SCALE * (sphere.radius.raw * sphere.radius.raw) <= normal_tolerance(
            sphere.radius.raw as int,
            ray.direction.length_spec().raw + 1,
        ),
        (SCALE - 1 - sphere.record_at(ray, hit_root(sphere, ray, far)).normal.length_spec().raw)
            * SCALE * (sphere.radius.raw * sphere.radius.raw) <= normal_tolerance(
            sphere.radius.raw as int,
            ray.direction.length_spec().raw + 1,
        ),
{
    let s = SCALE as int;
    let r = sphere.radius.raw as int;
    let root = hit_root(sphere, ray, far);
    let t = root.raw as int;
    let oc = ray.origin.minus(sphere.center);
    let dir = ray.direction;
    let x = (oc.x.raw as int, oc.y.raw as int, oc.z.raw as int);
    let d = (dir.x.raw as int, dir.y.raw as int, dir.z.raw as int);
    assert(x.0 == ray.origin.x.raw - sphere.center.x.raw && x.1 == ray.origin.y.raw
        - sphere.center.y.raw && x.2 == ray.origin.z.raw - sphere.center.z.raw);
    lemma_moderate_product(d.0, d.0);
    lemma_moderate_product(d.1, d.1);
    lemma_moderate_product(d.2, d.2);
    lemma_moderate_product(x.0, d.0);
    lemma_moderate_product(x.1, d.1);
    lemma_moderate_product(x.2, d.2);
    lemma_moderate_product(x.0, x.0);
    lemma_moderate_product(x.1, x.1);
    lemma_moderate_product(x.2, x.2);
    lemma_moderate_product(r, r);
    let a = d.0 * d.0 + d.1 * d.1 + d.2 * d.2;
    let hb = x.0 * d.0 + x.1 * d.1 + x.2 * d.2;
    let xx = x.0 * x.0 + x.1 * x.1 + x.2 * x.2;
    assert(Sphere::<T>::quadratic_a(ray) == a);
    assert(sphere.quadratic_half_b(ray) == hb);
    assert(sphere.quadratic_c(ray) == xx - r * r);
    let disc = hb * hb - a * (xx - r * r);
    assert(sphere.discriminant(ray) == disc);
    lemma_floor_sqrt_exists(disc);
    let sq = floor_sqrt(disc);
    let sign: int = if far {
        1
    } else {
        -1
    };
    let numerator = -hb + sign * sq;
    assert(sign * sq == if far {
        sq
    } else {
        -sq
    }) by (nonlinear_arith)
        requires
            sign == if far {
                1int
            } else {
                -1int
            },
    ;
    assert(root.raw == crate::sphere::root_raw(numerator, a));
    assert(t == quotient_toward_zero(numerator * s, a));
    // the length of the direction
    lemma_length_nonnegative(dir);
    lemma_floor_sqrt_exists(a);
    let whole = floor_sqrt(a);
    assert(d.0 * d.0 <= 0x1000_0000_0000_0000_0000_0000 && d.1 * d.1
        <= 0x1000_0000_0000_0000_0000_0000 && d.2 * d.2 <= 0x1000_0000_0000_0000_0000_0000)
        by (nonlinear_arith)
        requires
            -0x4000_0000_0000 <= d.0 <= 0x4000_0000_0000,
            -0x4000_0000_0000 <= d.1 <= 0x4000_0000_0000,
            -0x4000_0000_0000 <= d.2 <= 0x4000_0000_0000,
    ;
    if whole >= 0x8000_0000_0000 {
        assert(whole * whole >= 0x8000_0000_0000 * 0x8000_0000_0000) by (nonlinear_arith)
            requires
                whole >= 0x8000_0000_0000,
        ;
        assert(false);
    }
    let bound = dir.length_spec().raw + 1;
    assert(bound == whole + 1);
    assert(bound <= s * r) by (nonlinear_arith)
        requires
            bound <= 0x8000_0000_0000,
            s == 0x1_0000_0000,
            r >= 0x1_0000,
    ;
    // the point and the normal, before any saturation
    let m = (
        quotient_toward_zero(t * d.0, s),
        quotient_toward_zero(t * d.1, s),
        quotient_toward_zero(t * d.2, s),
    );
    let rel = (x.0 + m.0, x.1 + m.1, x.2 + m.2);
    let out = (
        quotient_toward_zero(rel.0 * s, r),
        quotient_toward_zero(rel.1 * s, r),
        quotient_toward_zero(rel.2 * s, r),
    );
    let norm = out.0 * out.0 + out.1 * out.1 + out.2 * out.2;
    lemma_normal_norm(x, d, t, r, bound, sq, sign, m, rel, out, norm);
    // nothing saturates
    let p = ray.at_spec(root);
    assert(dir.scaled(root).x.raw == m.0 && dir.scaled(root).y.raw == m.1 && dir.scaled(
        root,
    ).z.raw == m.2);
    assert(p.x.raw == ray.origin.x.raw + m.0 && p.y.raw == ray.origin.y.raw + m.1 && p.z.raw
        == ray.origin.z.raw + m.2);
    let seen = p.minus(sphere.center);
    assert(seen.x.raw == rel.0 && seen.y.raw == rel.1 && seen.z.raw == rel.2);
    lemma_quotient_magnitude(rel.0 * s, r);
    lemma_quotient_magnitude(rel.1 * s, r);
    lemma_quotient_magnitude(rel.2 * s, r);
    lemma_product_sign(rel.0, s);
    lemma_product_sign(rel.1, s);
    lemma_product_sign(rel.2, s);
    assert(magnitude(s) == s);
    lemma_small_quotient(magnitude(out.0), magnitude(rel.0), r);
    lemma_small_quotient(magnitude(out.1), magnitude(rel.1), r);
    lemma_small_quotient(magnitude(out.2), magnitude(rel.2), r);
    let outward = sphere.outward_normal(p);
    assert(outward.x.raw == out.0 && outward.y.raw == out.1 && outward.z.raw == out.2);
    let normal = sphere.record_at(ray, root).normal;
    assert(normal == outward || normal == outward.negated());
    assert((-out.0) * (-out.0) == out.0 * out.0 && (-out.1) * (-out.1) == out.1 * out.1 && (
    -out.2) * (-out.2) == out.2 * out.2) by (nonlinear_arith);
    assert(normal.norm_spec() == norm);
    assert(0 <= norm <= 12 * (s * s)) by (nonlinear_arith)
        requires
            norm == out.0 * out.0 + out.1 * out.1 + out.2 * out.2,
            -(2 * s) <= out.0 <= 2 * s,
            -(2 * s) <= out.1 <= 2 * s,
            -(2 * s) <= out.2 <= 2 * s,
            s > 0,
    ;
    lemma_floor_sqrt_exists(norm);
    let length = floor_sqrt(norm);
    assert(length <= RAW_MAX) by (nonlinear_arith)
        requires
            length >= 0,
            length * length <= norm,
            norm <= 12 * (0x1_0000_0000 * 0x1_0000_0000),
    ;
    assert(normal.length_spec().raw == length);
    lemma_length_from_norm(length, norm, r, normal_tolerance(r, bound));
}

/// From the square of a length to the length: where the square misses
/// `2^64` by at most `tol` over `r^2`, the length rounded down misses `2^32`
/// by at most `tol` over `2^32 r^2`, and one more from below.
proof fn lemma_length_from_norm(length: int, norm: int, r: int, tol: int)
    requires
        r >= 1,
        length >= 0,
        length * length <= norm,
        norm < (length + 1) * (length + 1),
        (norm - SCALE * SCALE) * (r * r) <= tol,
        (SCALE * SCALE - norm) * (r * r) <= tol,
    ensures
        (length - SCALE) * SCALE * (r * r) <= tol,
        (SCALE - 1 - length) * SCALE * (r * r) <= tol,
{
    let s = SCALE as int;
    let rr = r * r;
    assert(rr >= 1) by (nonlinear_arith)
        requires
            r >= 1,
            rr == r * r,
    ;
    assert(tol >= 0) by (nonlinear_arith)
        requires
            (norm - s * s) * rr <= tol,
            (s * s - norm) * rr <= tol,
            rr >= 1,
    ;
    if length >= s {
        assert((length - s) * s * rr <= (norm - s * s) * rr) by (nonlinear_arith)
            requires
                length >= s,
                s > 0,
                length * length <= norm,
                rr >= 1,
        ;
    } else {
        assert((length - s) * s * rr <= 0) by (nonlinear_arith)
            requires
                length < s,
                s > 0,
                rr >= 1,
        ;
    }
    if length + 1 <= s {
        assert((s - 1 - length) * s * rr <= (s * s - norm) * rr) by (nonlinear_arith)
            requires
                0 <= length + 1 <= s,
                norm < (length + 1) * (length + 1),
                rr >= 1,
        ;
    } else {
        assert((s - 1 - length) * s * rr <= 0) by (nonlinear_arith)
            requires
                length + 1 > s,
                s > 0,
                rr >= 1,
        ;
    }
}

/// A quotient of a dividend that is at most twice the divisor is at most
/// two.
proof fn lemma_small_quotient(u: int, x: int, r: int)
    requires
        r >= 1,
        u >= 0,
        0 <= x <= 2 * r,
        u * r <= x * SCALE,
    ensures
        u <= 2 * SCALE,
{
    assert(u <= 2 * SCALE) by (nonlinear_arith)
        requires
            r >= 1,
            u >= 0,
            0 <= x <= 2 * r,
            u * r <= x * 0x1_0000_0000,
    ;
}

/// The root of the quadratic that a hit is at: the larger one or the
/// smaller one.
pub open spec fn hit_root<T: Material>(sphere: &Sphere<T>, ray: Ray, far: bool) -> Fixed {
    if far {
        sphere.far_root(ray)
    } else {
        sphere.near_root(ray)
    }
}

} // verus!
