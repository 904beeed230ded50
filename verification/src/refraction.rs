//! Refraction keeps the length: the direction that Snell's law gives for a
//! unit vector at a unit normal is one long up to rounding.

use crate::arithmetic::lemma_product_squared;
use crate::arithmetic::lemma_sqrt_is_floor;
use crate::fixed::Fixed;
use crate::fixed::SCALE;
use crate::fixed::is_floor_sqrt;
use crate::fixed::lemma_product_sign;
use crate::fixed::magnitude;
use crate::fixed::quotient_toward_zero;
use crate::laws::dot_raw;
use crate::laws::lemma_dot_commutative;
use crate::laws::lemma_dot_negated;
use crate::laws::lemma_unit_components;
use crate::laws::raw_of;
use crate::surface::lemma_cauchy_schwarz;
use crate::surface::lemma_quotient_magnitude;
use crate::surface::lemma_quotient_remainder;
use crate::vec3::Vec3;
use vstd::prelude::*;
use vstd::std_specs::ops::NegSpec;
use vstd::std_specs::ops::SubSpec;

verus! {

/// The largest ratio of refractive indices that the bound below covers:
/// four.
pub const RATIO_MAX_RAW: i64 = 0x4_0000_0000;

/// Whether the exact sum of the squares of `v` misses one by at most
/// sixteen units of 2^-32, as it does for a vector that is one long within
/// four units of the last place.
pub open spec fn nearly_unit(v: Vec3) -> bool {
    -(16 * SCALE) <= v.norm_spec() - SCALE * SCALE <= 16 * SCALE
}

/// The refracted direction is one long up to rounding. For a unit vector
/// `v`, a unit normal `n` and a ratio of refractive indices up to four,
/// where the part of the refracted direction across the normal is at most
/// one long, the exact sum of the squares of the refracted direction misses
/// one by at most 330 units of 2^-32, which is a ten-millionth.
pub proof fn lemma_refract_keeps_length(v: Vec3, n: Vec3, eta_ratio: Fixed)
    requires
        nearly_unit(v),
        nearly_unit(n),
        0 <= eta_ratio.raw <= RATIO_MAX_RAW,
        v.refract_perpendicular(n, eta_ratio).length_squared_spec().raw <= SCALE,
    ensures
        -(330 * SCALE) <= v.refract_spec(n, eta_ratio).norm_spec() - SCALE * SCALE <= 330 * SCALE,
{
    let s = SCALE as int;
    let (vv, nn) = (raw_of(v), raw_of(n));
    let eta = eta_ratio.raw as int;
    lemma_unit_components(vv.0, vv.1, vv.2);
    lemma_unit_components(nn.0, nn.1, nn.2);
    // The cosine.
    lemma_product_within(vv.0, nn.0, s + 8, s + 8, s + 17);
    lemma_product_within(vv.1, nn.1, s + 8, s + 8, s + 17);
    lemma_product_within(vv.2, nn.2, s + 8, s + 8, s + 17);
    let d = dot_raw(vv, nn);
    assert(v.dot_spec(n).raw == d);
    lemma_dot_commutative(v.negated(), n);
    lemma_dot_negated(n, v);
    lemma_dot_commutative(n, v);
    assert(v.negated().dot_spec(n) == v.dot_spec(n).neg_spec());
    let c = v.incidence_cosine(n).raw as int;
    assert(c == if -d <= s { -d } else { s });
    lemma_cosine_balance(vv, nn, c);
    // The part across the normal.
    lemma_product_within(c, nn.0, s + 19, s + 8, s + 28);
    lemma_product_within(c, nn.1, s + 19, s + 8, s + 28);
    lemma_product_within(c, nn.2, s + 19, s + 8, s + 28);
    let along = n.scaled(v.incidence_cosine(n));
    let t = raw_of(along);
    assert(t.0 == quotient_toward_zero(c * nn.0, s) && t.1 == quotient_toward_zero(c * nn.1, s)
        && t.2 == quotient_toward_zero(c * nn.2, s));
    let w = raw_of(v.plus(along));
    assert(w.0 == vv.0 + t.0 && w.1 == vv.1 + t.1 && w.2 == vv.2 + t.2);
    lemma_product_within(eta, w.0, 4 * s, 2 * s + 36, 8 * s + 144);
    lemma_product_within(eta, w.1, 4 * s, 2 * s + 36, 8 * s + 144);
    lemma_product_within(eta, w.2, 4 * s, 2 * s + 36, 8 * s + 144);
    let perpendicular = v.refract_perpendicular(n, eta_ratio);
    let p = raw_of(perpendicular);
    assert(p.0 == quotient_toward_zero(eta * w.0, s) && p.1 == quotient_toward_zero(eta * w.1, s)
        && p.2 == quotient_toward_zero(eta * w.2, s));
    lemma_across(vv, nn, c, eta, t, p);
    // Its squared length, and the root of what is left of one.
    assert((8 * s + 144) * (8 * s + 144) <= (65 * s) * s) by (nonlinear_arith)
        requires
            s == 0x1_0000_0000,
    ;
    lemma_product_within(p.0, p.0, 8 * s + 144, 8 * s + 144, 65 * s);
    lemma_product_within(p.1, p.1, 8 * s + 144, 8 * s + 144, 65 * s);
    lemma_product_within(p.2, p.2, 8 * s + 144, 8 * s + 144, 65 * s);
    let ls = perpendicular.length_squared_spec().raw as int;
    assert(ls == dot_raw(p, p));
    lemma_rounded_squares(p, ls);
    let radicand = (Fixed { raw: SCALE }).sub_spec(perpendicular.length_squared_spec()).abs_spec();
    assert(radicand.raw == s - ls);
    lemma_sqrt_is_floor(radicand);
    let k = radicand.sqrt_spec().raw as int;
    let rest = (s - ls) * s;
    assert(0 <= rest <= s * s) by (nonlinear_arith)
        requires
            rest == (s - ls) * s,
            0 <= ls <= s,
    ;
    assert(k >= 0 && k * k <= rest && rest - k * k <= 2 * k) by {
        if s - ls > 0 {
            assert(is_floor_sqrt(rest, k));
            assert((k + 1) * (k + 1) == k * k + 2 * k + 1) by (nonlinear_arith);
        }
    }
    assert(k <= s) by (nonlinear_arith)
        requires
            k >= 0,
            k * k <= s * s,
            s > 0,
    ;
    // The part along the normal.
    assert(radicand.sqrt_spec().neg_spec().raw == -k);
    lemma_product_within(-k, nn.0, s, s + 8, s + 8);
    lemma_product_within(-k, nn.1, s, s + 8, s + 8);
    lemma_product_within(-k, nn.2, s, s + 8, s + 8);
    let parallel = Vec3::refract_parallel(perpendicular, n);
    let q = raw_of(parallel);
    assert(q.0 == quotient_toward_zero((-k) * nn.0, s) && q.1 == quotient_toward_zero(
        (-k) * nn.1,
        s,
    ) && q.2 == quotient_toward_zero((-k) * nn.2, s));
    let r = raw_of(v.refract_spec(n, eta_ratio));
    assert(r.0 == p.0 + q.0 && r.1 == p.1 + q.1 && r.2 == p.2 + q.2);
    lemma_along(p, nn, k, q, rest);
    // The sum of the two parts.
    assert((p.0 + q.0) * (p.0 + q.0) == p.0 * p.0 + 2 * (p.0 * q.0) + q.0 * q.0)
        by (nonlinear_arith);
    assert((p.1 + q.1) * (p.1 + q.1) == p.1 * p.1 + 2 * (p.1 * q.1) + q.1 * q.1)
        by (nonlinear_arith);
    assert((p.2 + q.2) * (p.2 + q.2) == p.2 * p.2 + 2 * (p.2 * q.2) + q.2 * q.2)
        by (nonlinear_arith);
    assert(rest == s * s - s * ls) by (nonlinear_arith)
        requires
            rest == (s - ls) * s,
    ;
}

/// A rounded product of two bounded factors is bounded.
proof fn lemma_product_within(a: int, b: int, la: int, lb: int, m: int)
    requires
        -la <= a <= la,
        -lb <= b <= lb,
        la * lb <= m * SCALE,
    ensures
        -m <= quotient_toward_zero(a * b, SCALE as int) <= m,
{
    let s = SCALE as int;
    lemma_quotient_magnitude(a * b, s);
    lemma_product_sign(a, b);
    let u = magnitude(quotient_toward_zero(a * b, s));
    assert(magnitude(a) * magnitude(b) <= la * lb) by (nonlinear_arith)
        requires
            0 <= magnitude(a) <= la,
            0 <= magnitude(b) <= lb,
    ;
    assert(u <= m) by (nonlinear_arith)
        requires
            u * s <= m * s,
            s > 0,
    ;
}

/// The cosine balances the dot product: with `c` the rounded cosine of two
/// unit vectors `v` and `n`, `s (v . n) + c (n . n)` is small.
proof fn lemma_cosine_balance(v: (int, int, int), n: (int, int, int), c: int)
    requires
        -(16 * SCALE) <= v.0 * v.0 + v.1 * v.1 + v.2 * v.2 - SCALE * SCALE <= 16 * SCALE,
        -(16 * SCALE) <= n.0 * n.0 + n.1 * n.1 + n.2 * n.2 - SCALE * SCALE <= 16 * SCALE,
        c == if -dot_raw(v, n) <= SCALE { -dot_raw(v, n) } else { SCALE as int },
    ensures
        -(SCALE + 19) <= c <= SCALE,
        -(32 * (SCALE * SCALE)) <= SCALE * (v.0 * n.0 + v.1 * n.1 + v.2 * n.2) + c * (n.0 * n.0
            + n.1 * n.1 + n.2 * n.2) <= 32 * (SCALE * SCALE),
{
    let s = SCALE as int;
    let ss = s * s;
    let dd = v.0 * n.0 + v.1 * n.1 + v.2 * n.2;
    let vq = v.0 * v.0 + v.1 * v.1 + v.2 * v.2;
    let nq = n.0 * n.0 + n.1 * n.1 + n.2 * n.2;
    let d = dot_raw(v, n);
    lemma_quotient_remainder(v.0 * n.0, s);
    lemma_quotient_remainder(v.1 * n.1, s);
    lemma_quotient_remainder(v.2 * n.2, s);
    let (q0, q1, q2) = (
        quotient_toward_zero(v.0 * n.0, s),
        quotient_toward_zero(v.1 * n.1, s),
        quotient_toward_zero(v.2 * n.2, s),
    );
    assert(s * d == s * q0 + s * q1 + s * q2) by (nonlinear_arith)
        requires
            d == q0 + q1 + q2,
    ;
    let rho = dd - s * d;
    assert(-(3 * s) < rho < 3 * s);
    lemma_cauchy_schwarz(v.0, v.1, v.2, n.0, n.1, n.2);
    let b = ss + 16 * s;
    assert(ss == 0x1_0000_0000_0000_0000) by (nonlinear_arith)
        requires
            ss == s * s,
            s == 0x1_0000_0000,
    ;
    assert(dd * dd <= b * b) by (nonlinear_arith)
        requires
            dd * dd <= nq * vq,
            0 <= nq <= b,
            0 <= vq <= b,
    ;
    assert(-b <= dd <= b) by (nonlinear_arith)
        requires
            dd * dd <= b * b,
            b > 0,
    ;
    assert(-(s + 19) <= d <= s + 19) by (nonlinear_arith)
        requires
            -(s * s + 19 * s) < s * d < s * s + 19 * s,
            s > 0,
    ;
    let delta = nq - ss;
    if -d <= s {
        assert(s * dd + c * nq == s * rho - d * delta) by (nonlinear_arith)
            requires
                c == -d,
                rho == dd - s * d,
                delta == nq - s * s,
        ;
        assert(-(3 * ss) <= s * rho <= 3 * ss) by (nonlinear_arith)
            requires
                -(3 * s) < rho < 3 * s,
                ss == s * s,
                s > 0,
        ;
        assert(-(17 * ss) <= d * delta <= 17 * ss) by (nonlinear_arith)
            requires
                -(s + 19) <= d <= s + 19,
                -(16 * s) <= delta <= 16 * s,
                ss == s * s,
                s == 0x1_0000_0000,
        ;
    } else {
        assert(s * dd + c * nq == s * (dd + nq)) by (nonlinear_arith)
            requires
                c == s,
        ;
        assert(s * d <= s * (-s - 1)) by (nonlinear_arith)
            requires
                d <= -s - 1,
                s > 0,
        ;
        assert(s * (-s - 1) == -ss - s) by (nonlinear_arith)
            requires
                ss == s * s,
        ;
        assert(-(32 * s) <= dd + nq <= 32 * s);
        assert(-(32 * ss) <= s * (dd + nq) <= 32 * ss) by (nonlinear_arith)
            requires
                -(32 * s) <= dd + nq <= 32 * s,
                ss == s * s,
                s > 0,
        ;
    }
}

/// One component of `s (w . n)`, with `w = v + t` and `t` the rounded
/// product of `c` and `n`.
proof fn lemma_across_component(s: int, v: int, t: int, n: int, c: int, rho: int)
    requires
        s > 0,
        rho == s * t - c * n,
        -s < rho < s,
        -(s + 8) <= n <= s + 8,
    ensures
        s * ((v + t) * n) == s * (v * n) + c * (n * n) + rho * n,
        -(s * (s + 8)) <= rho * n <= s * (s + 8),
{
    assert(s * ((v + t) * n) == s * (v * n) + c * (n * n) + rho * n) by (nonlinear_arith)
        requires
            rho == s * t - c * n,
    ;
    assert(-(s * (s + 8)) <= rho * n <= s * (s + 8)) by (nonlinear_arith)
        requires
            -s < rho < s,
            -(s + 8) <= n <= s + 8,
            s > 0,
    ;
}

/// One component of `s (p . n)`, with `p` the rounded product of `eta`
/// and `w`.
proof fn lemma_scaled_component(s: int, p: int, w: int, n: int, eta: int, rho: int)
    requires
        s > 0,
        rho == s * p - eta * w,
        -s < rho < s,
        -(s + 8) <= n <= s + 8,
    ensures
        s * (p * n) == eta * (w * n) + rho * n,
        -(s * (s + 8)) <= rho * n <= s * (s + 8),
{
    assert(s * (p * n) == eta * (w * n) + rho * n) by (nonlinear_arith)
        requires
            rho == s * p - eta * w,
    ;
    assert(-(s * (s + 8)) <= rho * n <= s * (s + 8)) by (nonlinear_arith)
        requires
            -s < rho < s,
            -(s + 8) <= n <= s + 8,
            s > 0,
    ;
}

/// The part across the normal is across it: its exact dot product with the
/// normal is at most 148 units of 2^-32.
proof fn lemma_across(
    v: (int, int, int),
    n: (int, int, int),
    c: int,
    eta: int,
    t: (int, int, int),
    p: (int, int, int),
)
    requires
        -(SCALE + 8) <= n.0 <= SCALE + 8,
        -(SCALE + 8) <= n.1 <= SCALE + 8,
        -(SCALE + 8) <= n.2 <= SCALE + 8,
        -(32 * (SCALE * SCALE)) <= SCALE * (v.0 * n.0 + v.1 * n.1 + v.2 * n.2) + c * (n.0 * n.0
            + n.1 * n.1 + n.2 * n.2) <= 32 * (SCALE * SCALE),
        0 <= eta <= 4 * SCALE,
        t.0 == quotient_toward_zero(c * n.0, SCALE as int),
        t.1 == quotient_toward_zero(c * n.1, SCALE as int),
        t.2 == quotient_toward_zero(c * n.2, SCALE as int),
        p.0 == quotient_toward_zero(eta * (v.0 + t.0), SCALE as int),
        p.1 == quotient_toward_zero(eta * (v.1 + t.1), SCALE as int),
        p.2 == quotient_toward_zero(eta * (v.2 + t.2), SCALE as int),
    ensures
        -(148 * SCALE) <= p.0 * n.0 + p.1 * n.1 + p.2 * n.2 <= 148 * SCALE,
{
    let s = SCALE as int;
    let ss = s * s;
    assert(ss == 0x1_0000_0000_0000_0000) by (nonlinear_arith)
        requires
            ss == s * s,
            s == 0x1_0000_0000,
    ;
    assert(s * (s + 8) == ss + 8 * s) by (nonlinear_arith)
        requires
            ss == s * s,
    ;
    lemma_quotient_remainder(c * n.0, s);
    lemma_quotient_remainder(c * n.1, s);
    lemma_quotient_remainder(c * n.2, s);
    lemma_across_component(s, v.0, t.0, n.0, c, s * t.0 - c * n.0);
    lemma_across_component(s, v.1, t.1, n.1, c, s * t.1 - c * n.1);
    lemma_across_component(s, v.2, t.2, n.2, c, s * t.2 - c * n.2);
    let w = (v.0 + t.0, v.1 + t.1, v.2 + t.2);
    let wn = w.0 * n.0 + w.1 * n.1 + w.2 * n.2;
    let dd = v.0 * n.0 + v.1 * n.1 + v.2 * n.2;
    let nq = n.0 * n.0 + n.1 * n.1 + n.2 * n.2;
    assert(s * wn == s * (w.0 * n.0) + s * (w.1 * n.1) + s * (w.2 * n.2)) by (nonlinear_arith)
        requires
            wn == w.0 * n.0 + w.1 * n.1 + w.2 * n.2,
    ;
    assert(s * dd == s * (v.0 * n.0) + s * (v.1 * n.1) + s * (v.2 * n.2)) by (nonlinear_arith)
        requires
            dd == v.0 * n.0 + v.1 * n.1 + v.2 * n.2,
    ;
    assert(c * nq == c * (n.0 * n.0) + c * (n.1 * n.1) + c * (n.2 * n.2)) by (nonlinear_arith)
        requires
            nq == n.0 * n.0 + n.1 * n.1 + n.2 * n.2,
    ;
    assert(-(36 * ss) <= s * wn <= 36 * ss);
    assert(-(36 * s) <= wn <= 36 * s) by (nonlinear_arith)
        requires
            -(36 * ss) <= s * wn <= 36 * ss,
            ss == s * s,
            s > 0,
    ;
    lemma_quotient_remainder(eta * w.0, s);
    lemma_quotient_remainder(eta * w.1, s);
    lemma_quotient_remainder(eta * w.2, s);
    lemma_scaled_component(s, p.0, w.0, n.0, eta, s * p.0 - eta * w.0);
    lemma_scaled_component(s, p.1, w.1, n.1, eta, s * p.1 - eta * w.1);
    lemma_scaled_component(s, p.2, w.2, n.2, eta, s * p.2 - eta * w.2);
    let pn = p.0 * n.0 + p.1 * n.1 + p.2 * n.2;
    assert(s * pn == s * (p.0 * n.0) + s * (p.1 * n.1) + s * (p.2 * n.2)) by (nonlinear_arith)
        requires
            pn == p.0 * n.0 + p.1 * n.1 + p.2 * n.2,
    ;
    assert(eta * wn == eta * (w.0 * n.0) + eta * (w.1 * n.1) + eta * (w.2 * n.2))
        by (nonlinear_arith)
        requires
            wn == w.0 * n.0 + w.1 * n.1 + w.2 * n.2,
    ;
    assert(-(144 * ss) <= eta * wn <= 144 * ss) by (nonlinear_arith)
        requires
            0 <= eta <= 4 * s,
            -(36 * s) <= wn <= 36 * s,
            ss == s * s,
            s > 0,
    ;
    assert(-(148 * ss) <= s * pn <= 148 * ss);
    assert(-(148 * s) <= pn <= 148 * s) by (nonlinear_arith)
        requires
            -(148 * ss) <= s * pn <= 148 * ss,
            ss == s * s,
            s > 0,
    ;
}

/// The rounded squared length of a vector that is at most one long misses
/// the exact sum of its squares, in units of 2^-64, by less than three
/// units of 2^-32, and no component of the vector exceeds one.
proof fn lemma_rounded_squares(p: (int, int, int), ls: int)
    requires
        ls == dot_raw(p, p),
        ls <= SCALE,
    ensures
        0 <= ls,
        0 <= p.0 * p.0 + p.1 * p.1 + p.2 * p.2 - SCALE * ls < 3 * SCALE,
        -SCALE <= p.0 <= SCALE,
        -SCALE <= p.1 <= SCALE,
        -SCALE <= p.2 <= SCALE,
{
    let s = SCALE as int;
    lemma_rounded_square(p.0);
    lemma_rounded_square(p.1);
    lemma_rounded_square(p.2);
    let (q0, q1, q2) = (
        quotient_toward_zero(p.0 * p.0, s),
        quotient_toward_zero(p.1 * p.1, s),
        quotient_toward_zero(p.2 * p.2, s),
    );
    assert(s * ls == s * q0 + s * q1 + s * q2) by (nonlinear_arith)
        requires
            ls == q0 + q1 + q2,
    ;
    lemma_root_within(p.0, q0);
    lemma_root_within(p.1, q1);
    lemma_root_within(p.2, q2);
}

/// The rounded square of a number is not negative and misses the exact
/// square by less than a unit of the last place.
proof fn lemma_rounded_square(x: int)
    ensures
        0 <= quotient_toward_zero(x * x, SCALE as int),
        0 <= x * x - SCALE * quotient_toward_zero(x * x, SCALE as int) < SCALE,
{
    let s = SCALE as int;
    assert(x * x >= 0) by (nonlinear_arith);
    vstd::arithmetic::div_mod::lemma_fundamental_div_mod(x * x, s);
    vstd::arithmetic::div_mod::lemma_mod_bound(x * x, s);
    vstd::arithmetic::div_mod::lemma_div_pos_is_pos(x * x, s);
}

/// A number whose rounded square is at most one is at most one.
proof fn lemma_root_within(x: int, q: int)
    requires
        0 <= x * x - SCALE * q < SCALE,
        q <= SCALE,
    ensures
        -SCALE <= x <= SCALE,
{
    let s = SCALE as int;
    assert(-s <= x <= s) by (nonlinear_arith)
        requires
            x * x < s * q + s,
            q <= s,
            s > 0,
    ;
}

/// One component of the part along the normal: with `q` the rounded product
/// of `-k` and `n`, what `s^2 q^2` misses of `k^2 n^2`, and what `s p q`
/// misses of `-k p n`.
proof fn lemma_along_component(s: int, k: int, n: int, q: int, p: int, rho: int)
    requires
        s > 0,
        0 <= k <= s,
        -(s + 8) <= n <= s + 8,
        -s <= p <= s,
        rho == s * q - (-k) * n,
        -s < rho < s,
    ensures
        -(2 * (s * s * (s + 8))) <= (s * s) * (q * q) - (k * k) * (n * n) <= 2 * (s * s * (s
            + 8)) + s * s,
        s * (p * q) == rho * p - k * (p * n),
        -(s * s) <= rho * p <= s * s,
{
    let a = (-k) * n;
    lemma_product_squared(s, q);
    lemma_product_squared(-k, n);
    assert((-k) * (-k) == k * k) by (nonlinear_arith);
    assert((s * q) * (s * q) == a * a + 2 * (a * rho) + rho * rho) by (nonlinear_arith)
        requires
            s * q == a + rho,
    ;
    assert(-(s * (s + 8)) <= a <= s * (s + 8)) by (nonlinear_arith)
        requires
            a == (-k) * n,
            0 <= k <= s,
            -(s + 8) <= n <= s + 8,
    ;
    let m = s * (s + 8);
    assert(-(s * m) <= a * rho <= s * m) by (nonlinear_arith)
        requires
            -m <= a <= m,
            -s < rho < s,
            s > 0,
            m >= 0,
    ;
    assert(s * m == s * s * (s + 8)) by (nonlinear_arith)
        requires
            m == s * (s + 8),
    ;
    assert(0 <= rho * rho <= s * s) by (nonlinear_arith)
        requires
            -s < rho < s,
    ;
    assert(s * (p * q) == rho * p - k * (p * n)) by (nonlinear_arith)
        requires
            rho == s * q - (-k) * n,
    ;
    assert(-(s * s) <= rho * p <= s * s) by (nonlinear_arith)
        requires
            -s < rho < s,
            -s <= p <= s,
            s > 0,
    ;
}

/// The part along the normal: the sum of its squares misses what is left
/// of one by at most 25 units of 2^-32, and its exact dot product with the
/// part across the normal is at most 151 units.
proof fn lemma_along(p: (int, int, int), n: (int, int, int), k: int, q: (int, int, int), rest: int)
    requires
        -SCALE <= p.0 <= SCALE,
        -SCALE <= p.1 <= SCALE,
        -SCALE <= p.2 <= SCALE,
        -(SCALE + 8) <= n.0 <= SCALE + 8,
        -(SCALE + 8) <= n.1 <= SCALE + 8,
        -(SCALE + 8) <= n.2 <= SCALE + 8,
        -(16 * SCALE) <= n.0 * n.0 + n.1 * n.1 + n.2 * n.2 - SCALE * SCALE <= 16 * SCALE,
        -(148 * SCALE) <= p.0 * n.0 + p.1 * n.1 + p.2 * n.2 <= 148 * SCALE,
        0 <= k <= SCALE,
        0 <= rest - k * k <= 2 * k,
        q.0 == quotient_toward_zero((-k) * n.0, SCALE as int),
        q.1 == quotient_toward_zero((-k) * n.1, SCALE as int),
        q.2 == quotient_toward_zero((-k) * n.2, SCALE as int),
    ensures
        -(25 * SCALE) <= q.0 * q.0 + q.1 * q.1 + q.2 * q.2 - rest <= 25 * SCALE,
        -(151 * SCALE) <= p.0 * q.0 + p.1 * q.1 + p.2 * q.2 <= 151 * SCALE,
{
    let s = SCALE as int;
    let ss = s * s;
    let sss = s * s * s;
    assert(ss == 0x1_0000_0000_0000_0000) by (nonlinear_arith)
        requires
            ss == s * s,
            s == 0x1_0000_0000,
    ;
    assert(s * s * (s + 8) == sss + 8 * ss && sss == s * ss) by (nonlinear_arith)
        requires
            ss == s * s,
            sss == s * s * s,
    ;
    lemma_quotient_remainder((-k) * n.0, s);
    lemma_quotient_remainder((-k) * n.1, s);
    lemma_quotient_remainder((-k) * n.2, s);
    lemma_along_component(s, k, n.0, q.0, p.0, s * q.0 - (-k) * n.0);
    lemma_along_component(s, k, n.1, q.1, p.1, s * q.1 - (-k) * n.1);
    lemma_along_component(s, k, n.2, q.2, p.2, s * q.2 - (-k) * n.2);
    let qq = q.0 * q.0 + q.1 * q.1 + q.2 * q.2;
    let nq = n.0 * n.0 + n.1 * n.1 + n.2 * n.2;
    let pn = p.0 * n.0 + p.1 * n.1 + p.2 * n.2;
    let pq = p.0 * q.0 + p.1 * q.1 + p.2 * q.2;
    let kk = k * k;
    assert(ss * qq == ss * (q.0 * q.0) + ss * (q.1 * q.1) + ss * (q.2 * q.2)) by (nonlinear_arith)
        requires
            qq == q.0 * q.0 + q.1 * q.1 + q.2 * q.2,
    ;
    assert(kk * nq == kk * (n.0 * n.0) + kk * (n.1 * n.1) + kk * (n.2 * n.2)) by (nonlinear_arith)
        requires
            nq == n.0 * n.0 + n.1 * n.1 + n.2 * n.2,
    ;
    assert(-(6 * sss + 48 * ss) <= ss * qq - kk * nq <= 6 * sss + 51 * ss);
    let delta = nq - ss;
    assert(0 <= kk <= ss) by (nonlinear_arith)
        requires
            kk == k * k,
            0 <= k <= s,
            ss == s * s,
    ;
    assert(ss * rest - kk * nq == (rest - kk) * ss - kk * delta) by (nonlinear_arith)
        requires
            delta == nq - ss,
    ;
    assert(0 <= (rest - kk) * ss <= 2 * sss) by (nonlinear_arith)
        requires
            0 <= rest - kk <= 2 * s,
            sss == s * ss,
            ss >= 0,
    ;
    assert(-(16 * sss) <= kk * delta <= 16 * sss) by (nonlinear_arith)
        requires
            0 <= kk <= ss,
            -(16 * s) <= delta <= 16 * s,
            sss == s * ss,
            s > 0,
    ;
    assert(-(25 * sss) <= ss * (qq - rest) <= 25 * sss) by (nonlinear_arith)
        requires
            -(6 * sss + 48 * ss) <= ss * qq - kk * nq <= 6 * sss + 51 * ss,
            -(16 * sss) <= ss * rest - kk * nq <= 18 * sss,
            51 * ss <= sss,
    ;
    assert(-(25 * s) <= qq - rest <= 25 * s) by (nonlinear_arith)
        requires
            -(25 * sss) <= ss * (qq - rest) <= 25 * sss,
            sss == s * ss,
            ss > 0,
    ;
    assert(s * pq == s * (p.0 * q.0) + s * (p.1 * q.1) + s * (p.2 * q.2)) by (nonlinear_arith)
        requires
            pq == p.0 * q.0 + p.1 * q.1 + p.2 * q.2,
    ;
    assert(k * pn == k * (p.0 * n.0) + k * (p.1 * n.1) + k * (p.2 * n.2)) by (nonlinear_arith)
        requires
            pn == p.0 * n.0 + p.1 * n.1 + p.2 * n.2,
    ;
    assert(-(148 * ss) <= k * pn <= 148 * ss) by (nonlinear_arith)
        requires
            0 <= k <= s,
            -(148 * s) <= pn <= 148 * s,
            ss == s * s,
    ;
    assert(-(151 * ss) <= s * pq <= 151 * ss);
    assert(-(151 * s) <= pq <= 151 * s) by (nonlinear_arith)
        requires
            -(151 * ss) <= s * pq <= 151 * ss,
            ss == s * s,
            s > 0,
    ;
}

} // verus!
