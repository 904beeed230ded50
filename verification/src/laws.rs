//! Laws of the vector algebra.
//!
//! Each law holds of the rounded and saturated operations exactly as it is
//! stated; where the arithmetic of real numbers promises more, the law names
//! the vectors for which it holds.

use crate::accuracy::lemma_length_is_floor;
use crate::accuracy::lemma_square_ordered;
use crate::accuracy::measurable;
use crate::arithmetic::lemma_equal_squares;
use crate::arithmetic::lemma_mul_by_unit;
use crate::arithmetic::lemma_mul_commutative;
use crate::arithmetic::lemma_mul_negated;
use crate::arithmetic::lemma_product_squared;
use crate::arithmetic::product_is_exact;
use crate::fixed::Fixed;
use crate::fixed::RAW_MAX;
use crate::fixed::SCALE;
use crate::fixed::lemma_product_sign;
use crate::fixed::magnitude;
use crate::fixed::quotient_toward_zero;
use crate::surface::lemma_quotient_magnitude;
use crate::surface::lemma_quotient_remainder;
use crate::vec3::lemma_length_nonnegative;
use crate::vec3::Vec3;
use vstd::prelude::*;
use vstd::std_specs::ops::MulSpec;
use vstd::std_specs::ops::NegSpec;

verus! {

/// The dot product does not depend on the order of its arguments.
pub proof fn lemma_dot_commutative(a: Vec3, b: Vec3)
    ensures
        a.dot_spec(b) == b.dot_spec(a),
{
    lemma_mul_commutative(a.x, b.x);
    lemma_mul_commutative(a.y, b.y);
    lemma_mul_commutative(a.z, b.z);
}

/// Exchanging the arguments of the cross product negates it.
pub proof fn lemma_cross_anticommutative(a: Vec3, b: Vec3)
    ensures
        a.cross_spec(b) == b.cross_spec(a).negated(),
{
    lemma_mul_commutative(a.y, b.z);
    lemma_mul_commutative(a.z, b.y);
    lemma_mul_commutative(a.z, b.x);
    lemma_mul_commutative(a.x, b.z);
    lemma_mul_commutative(a.x, b.y);
    lemma_mul_commutative(a.y, b.x);
}

/// Whether no component is the one raw value that has no negation. This
/// holds of every vector that an operation returns.
pub open spec fn negatable(v: Vec3) -> bool {
    v.x.raw > i64::MIN && v.y.raw > i64::MIN && v.z.raw > i64::MIN
}

/// Negating one argument negates the dot product.
pub proof fn lemma_dot_negated(a: Vec3, b: Vec3)
    requires
        negatable(b),
    ensures
        a.dot_spec(b.negated()) == a.dot_spec(b).neg_spec(),
{
    lemma_mul_negated(a.x, b.x);
    lemma_mul_negated(a.y, b.y);
    lemma_mul_negated(a.z, b.z);
}

/// Whether the vector is one of the six unit vectors along an axis. Among
/// the vectors with representable components only these are exactly one
/// long.
pub open spec fn is_axis_unit(n: Vec3) -> bool {
    ||| (n.x.raw == SCALE || n.x.raw == -SCALE) && n.y.raw == 0 && n.z.raw == 0
    ||| n.x.raw == 0 && (n.y.raw == SCALE || n.y.raw == -SCALE) && n.z.raw == 0
    ||| n.x.raw == 0 && n.y.raw == 0 && (n.z.raw == SCALE || n.z.raw == -SCALE)
}

/// Whether the reflection of `v` at the plane with normal `n` is computed
/// without saturation: twice the part of `v` along `n` is within the range.
pub open spec fn reflects_exactly(v: Vec3, n: Vec3) -> bool {
    negatable(v) && -RAW_MAX <= 2 * v.dot_spec(n).raw <= RAW_MAX
}

/// Reflection is an involution: reflecting twice at the plane with the unit
/// normal `n` gives the vector back. It is stated for the unit vectors along
/// the axes, and for vectors that the reflection does not saturate.
pub proof fn lemma_reflect_involution(v: Vec3, n: Vec3)
    requires
        is_axis_unit(n),
        reflects_exactly(v, n),
    ensures
        v.reflect_spec(n).reflect_spec(n) == v,
{
    lemma_reflect_at_axis(v, n);
    lemma_reflect_at_axis(v.reflect_spec(n), n);
}

/// Reflection at the plane across an axis negates the component along the
/// axis and keeps the two others.
pub proof fn lemma_reflect_at_axis(v: Vec3, n: Vec3)
    requires
        is_axis_unit(n),
        reflects_exactly(v, n),
    ensures
        v.reflect_spec(n) == (Vec3 {
            x: if n.x.raw != 0 {
                v.x.neg_spec()
            } else {
                v.x
            },
            y: if n.y.raw != 0 {
                v.y.neg_spec()
            } else {
                v.y
            },
            z: if n.z.raw != 0 {
                v.z.neg_spec()
            } else {
                v.z
            },
        }),
        reflects_exactly(v.reflect_spec(n), n),
{
    lemma_mul_by_unit(v.x, n.x);
    lemma_mul_by_unit(v.y, n.y);
    lemma_mul_by_unit(v.z, n.z);
    let d = v.dot_spec(n);
    let two_d = Fixed::int_spec(2).mul_spec(d);
    assert(2 * SCALE * d.raw == SCALE * (2 * d.raw)) by (nonlinear_arith);
    assert(two_d.raw == 2 * d.raw) by {
        vstd::arithmetic::div_mod::lemma_div_multiples_vanish(2 * d.raw, SCALE as int);
        vstd::arithmetic::div_mod::lemma_div_multiples_vanish(-(2 * d.raw), SCALE as int);
    }
    lemma_mul_by_unit(two_d, n.x);
    lemma_mul_by_unit(two_d, n.y);
    lemma_mul_by_unit(two_d, n.z);
    lemma_mul_commutative(two_d, n.x);
    lemma_mul_commutative(two_d, n.y);
    lemma_mul_commutative(two_d, n.z);
    let r = v.reflect_spec(n);
    lemma_mul_by_unit(r.x, n.x);
    lemma_mul_by_unit(r.y, n.y);
    lemma_mul_by_unit(r.z, n.z);
}

/// Whether the length of `a` is computed without rounding and without
/// saturation: the exact sum of the squares is the square of the length.
pub open spec fn length_is_exact(a: Vec3) -> bool {
    a.length_spec().raw * a.length_spec().raw == a.norm_spec()
}

/// Whether the product of `a` by `k` is computed without rounding and
/// without saturation.
pub open spec fn scaling_is_exact(k: Fixed, a: Vec3) -> bool {
    product_is_exact(k, a.x) && product_is_exact(k, a.y) && product_is_exact(k, a.z)
}

/// The length is homogeneous: the length of `k` times `a` is the absolute
/// value of `k` times the length of `a`. It is stated for the vectors and
/// factors on which the scaling and both lengths are computed exactly; where
/// a step rounds, the two sides may differ in the last digits.
pub proof fn lemma_length_scales(k: Fixed, a: Vec3)
    requires
        k.raw > i64::MIN,
        scaling_is_exact(k, a),
        length_is_exact(a),
        length_is_exact(a.scaled(k)),
    ensures
        a.scaled(k).length_spec() == k.abs_spec().mul_spec(a.length_spec()),
{
    let b = a.scaled(k);
    lemma_length_nonnegative(a);
    lemma_length_nonnegative(b);
    let big_k = k.raw as int;
    let abs_k = magnitude(big_k);
    let l = a.length_spec().raw as int;
    let m = b.length_spec().raw as int;
    let s = SCALE as int;
    let (x, y, z) = (a.x.raw as int, a.y.raw as int, a.z.raw as int);
    let (u, v, w) = (b.x.raw as int, b.y.raw as int, b.z.raw as int);
    assert(k.raw * a.x.raw == big_k * x && k.raw * a.y.raw == big_k * y && k.raw * a.z.raw
        == big_k * z);
    let ss = s * s;
    let kk = big_k * big_k;
    lemma_product_squared(u, s);
    lemma_product_squared(v, s);
    lemma_product_squared(w, s);
    lemma_product_squared(big_k, x);
    lemma_product_squared(big_k, y);
    lemma_product_squared(big_k, z);
    lemma_product_squared(m, s);
    lemma_product_squared(abs_k, l);
    assert(abs_k * abs_k == kk) by (nonlinear_arith)
        requires
            abs_k == magnitude(big_k),
            kk == big_k * big_k,
    ;
    assert((u * u + v * v + w * w) * ss == (u * u) * ss + (v * v) * ss + (w * w) * ss)
        by (nonlinear_arith);
    assert(kk * (x * x + y * y + z * z) == kk * (x * x) + kk * (y * y) + kk * (z * z))
        by (nonlinear_arith);
    assert((m * s) * (m * s) == (abs_k * l) * (abs_k * l));
    assert(m * s >= 0 && abs_k * l >= 0) by (nonlinear_arith)
        requires
            m >= 0,
            s > 0,
            abs_k >= 0,
            l >= 0,
    ;
    lemma_equal_squares(m * s, abs_k * l);
    assert(m * s == s * m) by (nonlinear_arith);
    vstd::arithmetic::div_mod::lemma_div_multiples_vanish(m, s);
}

/// Whether the product of `a` by `k` is computed without saturation.
pub open spec fn scaling_fits(k: Fixed, a: Vec3) -> bool {
    &&& -RAW_MAX <= quotient_toward_zero(k.raw * a.x.raw, SCALE as int) <= RAW_MAX
    &&& -RAW_MAX <= quotient_toward_zero(k.raw * a.y.raw, SCALE as int) <= RAW_MAX
    &&& -RAW_MAX <= quotient_toward_zero(k.raw * a.z.raw, SCALE as int) <= RAW_MAX
}

/// The length is homogeneous up to rounding, for every factor and every
/// vector on which nothing saturates: the length of `k` times `a` falls
/// short of the absolute value of `k` times the length of `a` by at most
/// three units of the last place, and exceeds it by at most one unit more
/// than the absolute value of `k`, in units of the last place.
pub proof fn lemma_length_scales_nearly(k: Fixed, a: Vec3)
    requires
        k.raw > i64::MIN,
        scaling_fits(k, a),
        measurable(a),
        measurable(a.scaled(k)),
        quotient_toward_zero(magnitude(k.raw as int) * a.length_spec().raw, SCALE as int)
            <= RAW_MAX,
    ensures
        a.scaled(k).length_spec().raw >= k.abs_spec().mul_spec(a.length_spec()).raw - 3,
        (a.scaled(k).length_spec().raw - k.abs_spec().mul_spec(a.length_spec()).raw - 1) * SCALE
            < magnitude(k.raw as int),
{
    let b = a.scaled(k);
    lemma_length_is_floor(a);
    lemma_length_is_floor(b);
    let l = a.length_spec().raw as int;
    let m = b.length_spec().raw as int;
    let big_k = k.raw as int;
    let abs_k = magnitude(big_k);
    let p = quotient_toward_zero(abs_k * l, SCALE as int);
    assert(abs_k * l >= 0) by (nonlinear_arith)
        requires
            abs_k >= 0,
            l >= 0,
    ;
    vstd::arithmetic::div_mod::lemma_div_pos_is_pos(abs_k * l, SCALE as int);
    assert(k.abs_spec().mul_spec(a.length_spec()).raw == p);
    lemma_scaled_length(
        big_k,
        (a.x.raw as int, a.y.raw as int, a.z.raw as int),
        (b.x.raw as int, b.y.raw as int, b.z.raw as int),
        l,
        m,
        p,
    );
}

/// The lemma on the length of a scaled vector, over the raw values.
proof fn lemma_scaled_length(
    k: int,
    x: (int, int, int),
    b: (int, int, int),
    l: int,
    m: int,
    p: int,
)
    requires
        b.0 == quotient_toward_zero(k * x.0, SCALE as int),
        b.1 == quotient_toward_zero(k * x.1, SCALE as int),
        b.2 == quotient_toward_zero(k * x.2, SCALE as int),
        l >= 0,
        l * l <= x.0 * x.0 + x.1 * x.1 + x.2 * x.2,
        x.0 * x.0 + x.1 * x.1 + x.2 * x.2 < (l + 1) * (l + 1),
        m >= 0,
        m * m <= b.0 * b.0 + b.1 * b.1 + b.2 * b.2,
        b.0 * b.0 + b.1 * b.1 + b.2 * b.2 < (m + 1) * (m + 1),
        p == quotient_toward_zero(magnitude(k) * l, SCALE as int),
    ensures
        m >= p - 3,
        (m - p - 1) * SCALE < magnitude(k),
{
    let s = SCALE as int;
    let ss = s * s;
    let abs_k = magnitude(k);
    let kk = abs_k * abs_k;
    let na = x.0 * x.0 + x.1 * x.1 + x.2 * x.2;
    let nb = b.0 * b.0 + b.1 * b.1 + b.2 * b.2;
    let (x0, x1, x2) = (magnitude(x.0), magnitude(x.1), magnitude(x.2));
    let (u0, u1, u2) = (magnitude(b.0), magnitude(b.1), magnitude(b.2));
    lemma_quotient_magnitude(k * x.0, s);
    lemma_quotient_magnitude(k * x.1, s);
    lemma_quotient_magnitude(k * x.2, s);
    lemma_product_sign(k, x.0);
    lemma_product_sign(k, x.1);
    lemma_product_sign(k, x.2);
    assert(na == x0 * x0 + x1 * x1 + x2 * x2 && nb == u0 * u0 + u1 * u1 + u2 * u2)
        by (nonlinear_arith)
        requires
            na == x.0 * x.0 + x.1 * x.1 + x.2 * x.2,
            nb == b.0 * b.0 + b.1 * b.1 + b.2 * b.2,
            x0 == magnitude(x.0),
            x1 == magnitude(x.1),
            x2 == magnitude(x.2),
            u0 == magnitude(b.0),
            u1 == magnitude(b.1),
            u2 == magnitude(b.2),
    ;
    assert(abs_k * l >= 0 && abs_k * x0 >= 0 && abs_k * x1 >= 0 && abs_k * x2 >= 0)
        by (nonlinear_arith)
        requires
            abs_k >= 0,
            l >= 0,
            x0 >= 0,
            x1 >= 0,
            x2 >= 0,
    ;
    lemma_quotient_magnitude(abs_k * l, s);
    vstd::arithmetic::div_mod::lemma_div_pos_is_pos(abs_k * l, s);
    assert(magnitude(p) == p && magnitude(abs_k * l) == abs_k * l);
    // the squares, component by component
    lemma_product_squared(u0, s);
    lemma_product_squared(u1, s);
    lemma_product_squared(u2, s);
    lemma_product_squared(abs_k, x0);
    lemma_product_squared(abs_k, x1);
    lemma_product_squared(abs_k, x2);
    lemma_product_squared(abs_k, l);
    lemma_product_squared(abs_k, l + 1);
    lemma_product_squared(m, s);
    lemma_product_squared(m + 4, s);
    assert(u0 * s >= 0 && u1 * s >= 0 && u2 * s >= 0) by (nonlinear_arith)
        requires
            u0 >= 0,
            u1 >= 0,
            u2 >= 0,
            s > 0,
    ;
    lemma_square_ordered(u0 * s, abs_k * x0);
    lemma_square_ordered(u1 * s, abs_k * x1);
    lemma_square_ordered(u2 * s, abs_k * x2);
    assert(nb * ss == (u0 * u0) * ss + (u1 * u1) * ss + (u2 * u2) * ss && kk * na == kk * (x0
        * x0) + kk * (x1 * x1) + kk * (x2 * x2)) by (nonlinear_arith)
        requires
            nb == u0 * u0 + u1 * u1 + u2 * u2,
            na == x0 * x0 + x1 * x1 + x2 * x2,
    ;
    // above: (m s)^2 <= nb s^2 <= k^2 na < (|k| (l + 1))^2
    assert((m * m) * ss <= nb * ss && kk * na <= kk * ((l + 1) * (l + 1)) && kk * (l * l) <= kk
        * na) by (nonlinear_arith)
        requires
            m * m <= nb,
            l * l <= na,
            na <= (l + 1) * (l + 1),
            ss >= 0,
            kk >= 0,
    ;
    assert(ss >= 0 && kk >= 0) by (nonlinear_arith)
        requires
            ss == s * s,
            kk == abs_k * abs_k,
    ;
    if m * s > abs_k * (l + 1) {
        assert(abs_k * (l + 1) >= 0) by (nonlinear_arith)
            requires
                abs_k >= 0,
                l >= 0,
        ;
        assert((m * s) * (m * s) > (abs_k * (l + 1)) * (abs_k * (l + 1))) by (nonlinear_arith)
            requires
                m * s > abs_k * (l + 1),
                abs_k * (l + 1) >= 0,
        ;
        assert(false);
    }
    assert(abs_k * (l + 1) == abs_k * l + abs_k && (m - p - 1) * s == m * s - p * s - s)
        by (nonlinear_arith);
    // below: k^2 na <= nb s^2 + 6 s^2 m + 3 s^2 < (s (m + 4))^2
    lemma_component_below(abs_k * x0, u0, s, m);
    lemma_component_below(abs_k * x1, u1, s, m);
    lemma_component_below(abs_k * x2, u2, s, m);
    lemma_component_within(u0, nb, m);
    lemma_component_within(u1, nb, m);
    lemma_component_within(u2, nb, m);
    assert(ss > 0) by (nonlinear_arith)
        requires
            ss == s * s,
            s > 0,
    ;
    assert(nb * ss < ((m + 1) * (m + 1)) * ss) by (nonlinear_arith)
        requires
            nb < (m + 1) * (m + 1),
            ss > 0,
    ;
    assert(3 * (2 * ss * m) == 6 * ss * m) by (nonlinear_arith);
    assert(((m + 1) * (m + 1)) * ss + 6 * ss * m + 3 * ss <= ((m + 4) * (m + 4)) * ss)
        by (nonlinear_arith)
        requires
            m >= 0,
            ss >= 0,
    ;
    if abs_k * l >= (m + 4) * s {
        assert((abs_k * l) * (abs_k * l) >= ((m + 4) * s) * ((m + 4) * s)) by (nonlinear_arith)
            requires
                abs_k * l >= (m + 4) * s,
                (m + 4) * s >= 0,
        ;
        assert(false);
    }
    assert((m + 4) * s == m * s + 4 * s) by (nonlinear_arith);
    assert(p <= m + 3) by (nonlinear_arith)
        requires
            p * s < (m + 4) * s,
            s > 0,
    ;
}

/// What rounding a component toward zero takes from its square: with `q`
/// the exact magnitude and `u` the rounded one, scaled by `s`, where `u` is
/// at most `m`.
proof fn lemma_component_below(q: int, u: int, s: int, m: int)
    requires
        s > 0,
        0 <= u,
        u * s <= q,
        q < u * s + s,
    ensures
        u <= m ==> q * q <= (u * u) * (s * s) + 2 * (s * s) * m + s * s,
{
    if u <= m {
        let g = q - u * s;
        lemma_product_squared(u, s);
        assert(q * q == (u * s) * (u * s) + 2 * ((u * s) * g) + g * g) by (nonlinear_arith)
            requires
                q == u * s + g,
        ;
        assert(g * g <= s * s && (u * s) * g <= (s * s) * m && 2 * ((s * s) * m) == 2 * (s * s)
            * m) by (nonlinear_arith)
            requires
                0 <= g < s,
                0 <= u <= m,
                s > 0,
        ;
    }
}

/// A component of a vector whose length rounds down to `m` is at most `m`.
proof fn lemma_component_within(u: int, n: int, m: int)
    requires
        u >= 0,
        m >= 0,
        u * u <= n,
        n < (m + 1) * (m + 1),
    ensures
        u <= m,
{
    assert(u <= m) by (nonlinear_arith)
        requires
            u >= 0,
            m >= 0,
            u * u < (m + 1) * (m + 1),
    ;
}

/// The dot product of two triples of raw values, each product rounded
/// toward zero, without saturation.
pub open spec fn dot_raw(v: (int, int, int), n: (int, int, int)) -> int {
    quotient_toward_zero(v.0 * n.0, SCALE as int) + quotient_toward_zero(v.1 * n.1, SCALE as int)
        + quotient_toward_zero(v.2 * n.2, SCALE as int)
}

/// The reflection of a triple of raw values, without saturation.
pub open spec fn reflect_raw(v: (int, int, int), n: (int, int, int)) -> (int, int, int) {
    let e = 2 * dot_raw(v, n);
    (
        v.0 - quotient_toward_zero(e * n.0, SCALE as int),
        v.1 - quotient_toward_zero(e * n.1, SCALE as int),
        v.2 - quotient_toward_zero(e * n.2, SCALE as int),
    )
}

/// The raw components of a vector.
pub open spec fn raw_of(v: Vec3) -> (int, int, int) {
    (v.x.raw as int, v.y.raw as int, v.z.raw as int)
}

/// Whether each component is at most `limit` in magnitude.
pub open spec fn within_raw(v: (int, int, int), limit: int) -> bool {
    -limit <= v.0 <= limit && -limit <= v.1 <= limit && -limit <= v.2 <= limit
}

/// A product of two bounded raw values, rounded toward zero, is bounded.
proof fn lemma_bounded_product(a: int, b: int, la: int, lb: int)
    requires
        -la <= a <= la,
        -lb <= b <= lb,
        lb <= 2 * SCALE,
    ensures
        -(2 * la) <= quotient_toward_zero(a * b, SCALE as int) <= 2 * la,
{
    let s = SCALE as int;
    lemma_quotient_magnitude(a * b, s);
    lemma_product_sign(a, b);
    let u = magnitude(quotient_toward_zero(a * b, s));
    assert(u <= 2 * la) by (nonlinear_arith)
        requires
            u >= 0,
            u * s <= magnitude(a) * magnitude(b),
            0 <= magnitude(a) <= la,
            0 <= magnitude(b) <= 2 * s,
            s > 0,
    ;
}

/// The reflection of a vector of moderate size at a normal of about unit
/// size is computed without saturation.
pub proof fn lemma_reflect_fits(v: Vec3, n: Vec3, limit: int)
    requires
        0 <= limit <= 0x1_0000_0000_0000,
        within_raw(raw_of(v), limit),
        within_raw(raw_of(n), 2 * SCALE),
    ensures
        raw_of(v.reflect_spec(n)) == reflect_raw(raw_of(v), raw_of(n)),
        within_raw(reflect_raw(raw_of(v), raw_of(n)), 25 * limit),
{
    let (vv, nn) = (raw_of(v), raw_of(n));
    let s = SCALE as int;
    lemma_bounded_product(vv.0, nn.0, limit, 2 * s);
    lemma_bounded_product(vv.1, nn.1, limit, 2 * s);
    lemma_bounded_product(vv.2, nn.2, limit, 2 * s);
    let d = dot_raw(vv, nn);
    assert(v.dot_spec(n).raw == d);
    let e = 2 * d;
    assert(2 * s * d == s * e) by (nonlinear_arith)
        requires
            e == 2 * d,
    ;
    vstd::arithmetic::div_mod::lemma_div_multiples_vanish(e, s);
    vstd::arithmetic::div_mod::lemma_div_multiples_vanish(-e, s);
    assert(-(s * e) == s * (-e)) by (nonlinear_arith);
    assert(Fixed::int_spec(2).mul_spec(v.dot_spec(n)).raw == e);
    lemma_bounded_product(e, nn.0, 12 * limit, 2 * s);
    lemma_bounded_product(e, nn.1, 12 * limit, 2 * s);
    lemma_bounded_product(e, nn.2, 12 * limit, 2 * s);
}

/// Reflection is an involution up to rounding: reflecting a vector with
/// components up to two twice at the plane with a normal that is one long
/// within four units of the last place gives the vector back within 420
/// units of the last place, which is a ten-millionth.
pub proof fn lemma_reflect_involution_nearly(v: Vec3, n: Vec3)
    requires
        within_raw(raw_of(v), 2 * SCALE),
        -(16 * SCALE) <= n.norm_spec() - SCALE * SCALE <= 16 * SCALE,
    ensures
        within_raw(
            (
                v.reflect_spec(n).reflect_spec(n).x.raw - v.x.raw,
                v.reflect_spec(n).reflect_spec(n).y.raw - v.y.raw,
                v.reflect_spec(n).reflect_spec(n).z.raw - v.z.raw,
            ),
            420,
        ),
{
    let s = SCALE as int;
    let (vv, nn) = (raw_of(v), raw_of(n));
    lemma_unit_components(nn.0, nn.1, nn.2);
    lemma_reflect_fits(v, n, 2 * s);
    lemma_reflect_fits(v.reflect_spec(n), n, 50 * s);
    lemma_reflect_twice(vv, nn);
}

/// The components of a vector that is about one long are at most one and
/// eight units of the last place.
pub proof fn lemma_unit_components(a: int, b: int, c: int)
    requires
        a * a + b * b + c * c <= SCALE * SCALE + 16 * SCALE,
    ensures
        -(SCALE + 8) <= a <= SCALE + 8,
        -(SCALE + 8) <= b <= SCALE + 8,
        -(SCALE + 8) <= c <= SCALE + 8,
{
    let s = SCALE as int;
    assert(a * a >= 0 && b * b >= 0 && c * c >= 0) by (nonlinear_arith);
    assert((s + 8) * (s + 8) == s * s + 16 * s + 64) by (nonlinear_arith);
    assert(-(s + 8) <= a <= s + 8) by (nonlinear_arith)
        requires
            a * a < (s + 8) * (s + 8),
            s > 0,
    ;
    assert(-(s + 8) <= b <= s + 8) by (nonlinear_arith)
        requires
            b * b < (s + 8) * (s + 8),
            s > 0,
    ;
    assert(-(s + 8) <= c <= s + 8) by (nonlinear_arith)
        requires
            c * c < (s + 8) * (s + 8),
            s > 0,
    ;
}

/// What one reflection does, before rounding is set aside: with `d` the
/// rounded dot product and `w` the rounded displacement, `s d` misses the
/// exact dot product by less than `3 s`, and `s w` misses `2 d n` by less
/// than `s` in each component.
proof fn lemma_reflect_once(v: (int, int, int), n: (int, int, int))
    ensures
        ({
            let s = SCALE as int;
            let d = dot_raw(v, n);
            let r = reflect_raw(v, n);
            let vn = v.0 * n.0 + v.1 * n.1 + v.2 * n.2;
            &&& -(3 * s) < s * d - vn < 3 * s
            &&& -s < s * (v.0 - r.0) - (2 * d) * n.0 < s
            &&& -s < s * (v.1 - r.1) - (2 * d) * n.1 < s
            &&& -s < s * (v.2 - r.2) - (2 * d) * n.2 < s
        }),
{
    let s = SCALE as int;
    let d = dot_raw(v, n);
    lemma_quotient_remainder(v.0 * n.0, s);
    lemma_quotient_remainder(v.1 * n.1, s);
    lemma_quotient_remainder(v.2 * n.2, s);
    lemma_quotient_remainder((2 * d) * n.0, s);
    lemma_quotient_remainder((2 * d) * n.1, s);
    lemma_quotient_remainder((2 * d) * n.2, s);
    let (p0, p1, p2) = (
        quotient_toward_zero(v.0 * n.0, s),
        quotient_toward_zero(v.1 * n.1, s),
        quotient_toward_zero(v.2 * n.2, s),
    );
    assert(s * d == s * p0 + s * p1 + s * p2) by (nonlinear_arith)
        requires
            d == p0 + p1 + p2,
    ;
}

/// The lemma on two reflections, over the raw values.
proof fn lemma_reflect_twice(v: (int, int, int), n: (int, int, int))
    requires
        within_raw(v, 2 * SCALE),
        within_raw(n, SCALE + 8),
        -(16 * SCALE) <= n.0 * n.0 + n.1 * n.1 + n.2 * n.2 - SCALE * SCALE <= 16 * SCALE,
    ensures
        within_raw(
            (
                reflect_raw(reflect_raw(v, n), n).0 - v.0,
                reflect_raw(reflect_raw(v, n), n).1 - v.1,
                reflect_raw(reflect_raw(v, n), n).2 - v.2,
            ),
            420,
        ),
{
    let s = SCALE as int;
    let ss = s * s;
    let r = reflect_raw(v, n);
    let back = reflect_raw(r, n);
    let d = dot_raw(v, n);
    let dd = dot_raw(r, n);
    let vn = v.0 * n.0 + v.1 * n.1 + v.2 * n.2;
    let rn = r.0 * n.0 + r.1 * n.1 + r.2 * n.2;
    let nn = n.0 * n.0 + n.1 * n.1 + n.2 * n.2;
    lemma_reflect_once(v, n);
    lemma_reflect_once(r, n);
    let w = (v.0 - r.0, v.1 - r.1, v.2 - r.2);
    let g = (
        (2 * d) * n.0 - s * w.0,
        (2 * d) * n.1 - s * w.1,
        (2 * d) * n.2 - s * w.2,
    );
    let h = vn - s * d;
    let hh = rn - s * dd;
    let gn = g.0 * n.0 + g.1 * n.1 + g.2 * n.2;
    // s (r . n) = s (v . n) - 2 d (n . n) + g . n
    let e = 2 * d;
    lemma_displaced_component(s, v.0, w.0, n.0, e, g.0);
    lemma_displaced_component(s, v.1, w.1, n.1, e, g.1);
    lemma_displaced_component(s, v.2, w.2, n.2, e, g.2);
    assert(s * rn == s * (r.0 * n.0) + s * (r.1 * n.1) + s * (r.2 * n.2) && s * vn == s * (v.0
        * n.0) + s * (v.1 * n.1) + s * (v.2 * n.2) && e * nn == e * (n.0 * n.0) + e * (n.1
        * n.1) + e * (n.2 * n.2)) by (nonlinear_arith)
        requires
            rn == r.0 * n.0 + r.1 * n.1 + r.2 * n.2,
            vn == v.0 * n.0 + v.1 * n.1 + v.2 * n.2,
            nn == n.0 * n.0 + n.1 * n.1 + n.2 * n.2,
    ;
    assert(s * rn == s * vn - (2 * d) * nn + gn);
    // s^3 (d + dd) = 2 (v . n) (s^2 - n . n) + 2 h (n . n) - s^2 (h + hh) + s (g . n)
    let sum = d + dd;
    assert(ss * (s * sum) == 2 * (vn * (ss - nn)) + 2 * (h * nn) - ss * (h + hh) + s * gn)
        by (nonlinear_arith)
        requires
            sum == d + dd,
            ss == s * s,
            s * d == vn - h,
            s * dd == rn - hh,
            s * rn == s * vn - (2 * d) * nn + gn,
    ;
    // the bounds of the four parts
    assert(-(6 * s * (s + 8)) <= vn <= 6 * s * (s + 8)) by (nonlinear_arith)
        requires
            vn == v.0 * n.0 + v.1 * n.1 + v.2 * n.2,
            -(2 * s) <= v.0 <= 2 * s,
            -(2 * s) <= v.1 <= 2 * s,
            -(2 * s) <= v.2 <= 2 * s,
            -(s + 8) <= n.0 <= s + 8,
            -(s + 8) <= n.1 <= s + 8,
            -(s + 8) <= n.2 <= s + 8,
            s > 0,
    ;
    assert(-(3 * s * (s + 8)) <= gn <= 3 * s * (s + 8)) by (nonlinear_arith)
        requires
            gn == g.0 * n.0 + g.1 * n.1 + g.2 * n.2,
            -s < g.0 < s,
            -s < g.1 < s,
            -s < g.2 < s,
            -(s + 8) <= n.0 <= s + 8,
            -(s + 8) <= n.1 <= s + 8,
            -(s + 8) <= n.2 <= s + 8,
            s > 0,
    ;
    let bound = 6 * s * (s + 8);
    assert(-(bound * (16 * s)) <= vn * (ss - nn) <= bound * (16 * s)) by (nonlinear_arith)
        requires
            -bound <= vn <= bound,
            -(16 * s) <= ss - nn <= 16 * s,
            bound >= 0,
            s > 0,
    ;
    assert(-((3 * s) * (ss + 16 * s)) <= h * nn <= (3 * s) * (ss + 16 * s)) by (nonlinear_arith)
        requires
            -(3 * s) < h < 3 * s,
            0 <= nn <= ss + 16 * s,
            s > 0,
    ;
    assert(-(ss * (6 * s)) <= ss * (h + hh) <= ss * (6 * s)) by (nonlinear_arith)
        requires
            -(6 * s) < h + hh < 6 * s,
            ss >= 0,
    ;
    assert(-(s * (3 * s * (s + 8))) <= s * gn <= s * (3 * s * (s + 8))) by (nonlinear_arith)
        requires
            -(3 * s * (s + 8)) <= gn <= 3 * s * (s + 8),
            s > 0,
    ;
    assert(ss >= 0 && nn >= 0) by (nonlinear_arith)
        requires
            ss == s * s,
            nn == n.0 * n.0 + n.1 * n.1 + n.2 * n.2,
    ;
    assert(-208 <= sum <= 208) by (nonlinear_arith)
        requires
            s == 0x1_0000_0000,
            ss == s * s,
            bound == 6 * s * (s + 8),
            -(2 * (bound * (16 * s)) + 2 * ((3 * s) * (ss + 16 * s)) + ss * (6 * s) + s * (3 * s
                * (s + 8))) <= ss * (s * sum) <= 2 * (bound * (16 * s)) + 2 * ((3 * s) * (ss + 16
                * s)) + ss * (6 * s) + s * (3 * s * (s + 8)),
    ;
    // the two displacements cancel up to 2 (d + dd) n / s
    let ww = (r.0 - back.0, r.1 - back.1, r.2 - back.2);
    lemma_cancelling(w.0, ww.0, d, dd, n.0);
    lemma_cancelling(w.1, ww.1, d, dd, n.1);
    lemma_cancelling(w.2, ww.2, d, dd, n.2);
}

/// One component of the dot product of a displaced vector with the normal.
proof fn lemma_displaced_component(s: int, v: int, w: int, n: int, e: int, g: int)
    requires
        g == e * n - s * w,
    ensures
        s * ((v - w) * n) == s * (v * n) - e * (n * n) + g * n,
{
    assert(s * ((v - w) * n) == s * (v * n) - (s * w) * n) by (nonlinear_arith);
    assert((s * w) * n == (e * n) * n - g * n) by (nonlinear_arith)
        requires
            s * w == e * n - g,
    ;
    assert((e * n) * n == e * (n * n)) by (nonlinear_arith);
}

/// Two displacements along the normal nearly cancel where the two dot
/// products nearly do.
proof fn lemma_cancelling(w: int, ww: int, d: int, dd: int, n: int)
    requires
        -SCALE < SCALE * w - (2 * d) * n < SCALE,
        -SCALE < SCALE * ww - (2 * dd) * n < SCALE,
        -208 <= d + dd <= 208,
        -(SCALE + 8) <= n <= SCALE + 8,
    ensures
        -420 <= w + ww <= 420,
{
    let s = SCALE as int;
    let sum = d + dd;
    assert((2 * d) * n + (2 * dd) * n == 2 * (sum * n)) by (nonlinear_arith)
        requires
            sum == d + dd,
    ;
    assert(-(208 * (s + 8)) <= sum * n <= 208 * (s + 8)) by (nonlinear_arith)
        requires
            -208 <= sum <= 208,
            -(s + 8) <= n <= s + 8,
            s > 0,
    ;
    assert(s * (w + ww) == s * w + s * ww) by (nonlinear_arith);
    assert(-420 <= w + ww <= 420) by (nonlinear_arith)
        requires
            s == 0x1_0000_0000,
            -(2 * s) - 2 * (208 * (s + 8)) < s * (w + ww) < 2 * s + 2 * (208 * (s + 8)),
    ;
}

/// Reflection keeps the length up to rounding: the exact sum of the
/// squares of a vector with components up to two changes by at most 4000
/// units of 2^-32 (a millionth of one) where the vector is reflected at the
/// plane with a normal that is one long within four units of the last
/// place.
pub proof fn lemma_reflect_keeps_length(v: Vec3, n: Vec3)
    requires
        within_raw(raw_of(v), 2 * SCALE),
        -(16 * SCALE) <= n.norm_spec() - SCALE * SCALE <= 16 * SCALE,
    ensures
        -(4000 * SCALE) <= v.reflect_spec(n).norm_spec() - v.norm_spec() <= 4000 * SCALE,
{
    let s = SCALE as int;
    let (vv, nn) = (raw_of(v), raw_of(n));
    lemma_unit_components(nn.0, nn.1, nn.2);
    lemma_reflect_fits(v, n, 2 * s);
    lemma_reflect_norm(vv, nn);
}

/// Reflection turns the part along the normal around: for a vector with
/// components up to two and a normal that is one long within four units of
/// the last place, the exact dot products of the normal with the vector and
/// with its reflection add up to at most 400 units of 2^-32, which is a
/// ten-millionth.
pub proof fn lemma_reflect_negates_dot(v: Vec3, n: Vec3)
    requires
        within_raw(raw_of(v), 2 * SCALE),
        -(16 * SCALE) <= n.norm_spec() - SCALE * SCALE <= 16 * SCALE,
    ensures
        ({
            let r = raw_of(v.reflect_spec(n));
            let (vv, nn) = (raw_of(v), raw_of(n));
            -(400 * SCALE) <= (r.0 * nn.0 + r.1 * nn.1 + r.2 * nn.2) + (vv.0 * nn.0 + vv.1 * nn.1
                + vv.2 * nn.2) <= 400 * SCALE
        }),
{
    let s = SCALE as int;
    let ss = s * s;
    let (vv, nn) = (raw_of(v), raw_of(n));
    lemma_unit_components(nn.0, nn.1, nn.2);
    lemma_reflect_fits(v, n, 2 * s);
    lemma_reflect_once(vv, nn);
    lemma_bounded_product(vv.0, nn.0, 2 * s, 2 * s);
    lemma_bounded_product(vv.1, nn.1, 2 * s, 2 * s);
    lemma_bounded_product(vv.2, nn.2, 2 * s, 2 * s);
    let d = dot_raw(vv, nn);
    let r = reflect_raw(vv, nn);
    let (g0, g1, g2) = (
        s * (vv.0 - r.0) - (2 * d) * nn.0,
        s * (vv.1 - r.1) - (2 * d) * nn.1,
        s * (vv.2 - r.2) - (2 * d) * nn.2,
    );
    lemma_turned_component(s, vv.0, r.0, nn.0, d, g0);
    lemma_turned_component(s, vv.1, r.1, nn.1, d, g1);
    lemma_turned_component(s, vv.2, r.2, nn.2, d, g2);
    let vn = vv.0 * nn.0 + vv.1 * nn.1 + vv.2 * nn.2;
    let rn = r.0 * nn.0 + r.1 * nn.1 + r.2 * nn.2;
    let nq = nn.0 * nn.0 + nn.1 * nn.1 + nn.2 * nn.2;
    let g = g0 * nn.0 + g1 * nn.1 + g2 * nn.2;
    assert(s * rn == s * (r.0 * nn.0) + s * (r.1 * nn.1) + s * (r.2 * nn.2)) by (nonlinear_arith)
        requires
            rn == r.0 * nn.0 + r.1 * nn.1 + r.2 * nn.2,
    ;
    assert(s * vn == s * (vv.0 * nn.0) + s * (vv.1 * nn.1) + s * (vv.2 * nn.2))
        by (nonlinear_arith)
        requires
            vn == vv.0 * nn.0 + vv.1 * nn.1 + vv.2 * nn.2,
    ;
    assert((2 * d) * nq == (2 * d) * (nn.0 * nn.0) + (2 * d) * (nn.1 * nn.1) + (2 * d) * (nn.2
        * nn.2)) by (nonlinear_arith)
        requires
            nq == nn.0 * nn.0 + nn.1 * nn.1 + nn.2 * nn.2,
    ;
    assert(s * rn == s * vn - (2 * d) * nq - g);
    let delta = nq - ss;
    let rho = s * d - vn;
    assert(s * (rn + vn) == -(2 * (s * rho)) - (2 * d) * delta - g) by (nonlinear_arith)
        requires
            s * rn == s * vn - (2 * d) * nq - g,
            delta == nq - s * s,
            rho == s * d - vn,
    ;
    assert(-(3 * ss) <= s * rho <= 3 * ss) by (nonlinear_arith)
        requires
            -(3 * s) < rho < 3 * s,
            ss == s * s,
            s > 0,
    ;
    assert(-(384 * ss) <= (2 * d) * delta <= 384 * ss) by (nonlinear_arith)
        requires
            -(12 * s) <= d <= 12 * s,
            -(16 * s) <= delta <= 16 * s,
            ss == s * s,
            s > 0,
    ;
    assert(s * (s + 8) <= 2 * ss) by (nonlinear_arith)
        requires
            ss == s * s,
            s == 0x1_0000_0000,
    ;
    assert(-(400 * s) <= rn + vn <= 400 * s) by (nonlinear_arith)
        requires
            -(400 * ss) <= s * (rn + vn) <= 400 * ss,
            ss == s * s,
            s > 0,
    ;
}

/// One component of `s (r . n)`, with `r` the reflected vector and `g` what
/// rounding adds to its displacement.
proof fn lemma_turned_component(s: int, v: int, r: int, n: int, d: int, g: int)
    requires
        s > 0,
        g == s * (v - r) - (2 * d) * n,
        -s < g < s,
        -(s + 8) <= n <= s + 8,
    ensures
        s * (r * n) == s * (v * n) - (2 * d) * (n * n) - g * n,
        -(s * (s + 8)) <= g * n <= s * (s + 8),
{
    assert(s * (r * n) == s * (v * n) - (2 * d) * (n * n) - g * n) by (nonlinear_arith)
        requires
            g == s * (v - r) - (2 * d) * n,
    ;
    assert(-(s * (s + 8)) <= g * n <= s * (s + 8)) by (nonlinear_arith)
        requires
            -s < g < s,
            -(s + 8) <= n <= s + 8,
            s > 0,
    ;
}

/// One component of the square of the reflected vector, scaled: with
/// `a = s u - e n` the exact displacement and `g` what rounding adds.
proof fn lemma_reflected_component(s: int, u: int, r: int, e: int, n: int, g: int, big: int)
    requires
        s > 0,
        s * r == s * u - e * n + g,
        -s < g < s,
        -(50 * s) <= r <= 50 * s,
        big == s * e,
    ensures
        -(102 * (s * s * s) + s * s) <= (s * s) * (r * r) - (s * u - e * n) * (s * u - e * n)
            <= 102 * (s * s * s) + s * s,
        (s * s) * ((s * u - e * n) * (s * u - e * n)) == (s * s * s * s) * (u * u) - 2 * ((s * s)
            * (big * (u * n))) + (big * big) * (n * n),
{
    let a = s * u - e * n;
    lemma_product_squared(s, r);
    lemma_binomial_here(a, g);
    assert((s * r) * (s * r) == (a + g) * (a + g));
    assert(-(50 * (s * s)) - s <= a <= 50 * (s * s) + s) by (nonlinear_arith)
        requires
            a == s * r - g,
            -s < g < s,
            -(50 * s) <= r <= 50 * s,
            s > 0,
    ;
    assert(-(51 * (s * s * s)) <= a * g <= 51 * (s * s * s) && 0 <= g * g <= s * s)
        by (nonlinear_arith)
        requires
            -(50 * (s * s)) - s <= a <= 50 * (s * s) + s,
            -s < g < s,
            s >= 1,
    ;
    // the exact part
    let sa = s * a;
    lemma_product_squared(s, a);
    assert(sa == (s * s) * u - big * n) by (nonlinear_arith)
        requires
            sa == s * (s * u - e * n),
            big == s * e,
    ;
    lemma_binomial_here((s * s) * u, -(big * n));
    lemma_product_squared(s * s, u);
    lemma_product_squared(big, n);
    assert((-(big * n)) * (-(big * n)) == (big * n) * (big * n) && ((s * s) * u) * (-(big * n))
        == -((s * s) * (big * (u * n))) && (s * s) * (s * s) == s * s * s * s)
        by (nonlinear_arith);
}

/// The square of a sum of two.
proof fn lemma_binomial_here(u: int, v: int)
    ensures
        (u + v) * (u + v) == u * u + 2 * (u * v) + v * v,
{
    assert((u + v) * (u + v) == u * u + 2 * (u * v) + v * v) by (nonlinear_arith);
}

/// The lemma on the length of a reflected vector, over the raw values.
proof fn lemma_reflect_norm(v: (int, int, int), n: (int, int, int))
    requires
        within_raw(v, 2 * SCALE),
        within_raw(n, SCALE + 8),
        within_raw(reflect_raw(v, n), 50 * SCALE),
        -(16 * SCALE) <= n.0 * n.0 + n.1 * n.1 + n.2 * n.2 - SCALE * SCALE <= 16 * SCALE,
    ensures
        ({
            let r = reflect_raw(v, n);
            -(4000 * SCALE) <= (r.0 * r.0 + r.1 * r.1 + r.2 * r.2) - (v.0 * v.0 + v.1 * v.1 + v.2
                * v.2) <= 4000 * SCALE
        }),
{
    let s = SCALE as int;
    let ss = s * s;
    let s4 = s * s * s * s;
    let r = reflect_raw(v, n);
    let d = dot_raw(v, n);
    let e = 2 * d;
    let big = s * e;
    let vn = v.0 * n.0 + v.1 * n.1 + v.2 * n.2;
    let nn = n.0 * n.0 + n.1 * n.1 + n.2 * n.2;
    let uu = v.0 * v.0 + v.1 * v.1 + v.2 * v.2;
    let rr = r.0 * r.0 + r.1 * r.1 + r.2 * r.2;
    lemma_reflect_once(v, n);
    let h = vn - s * d;
    assert(big == 2 * (vn - h)) by (nonlinear_arith)
        requires
            big == s * (2 * d),
            h == vn - s * d,
    ;
    let g = (
        s * r.0 - (s * v.0 - e * n.0),
        s * r.1 - (s * v.1 - e * n.1),
        s * r.2 - (s * v.2 - e * n.2),
    );
    assert(g.0 == (2 * d) * n.0 - s * (v.0 - r.0) && g.1 == (2 * d) * n.1 - s * (v.1 - r.1)
        && g.2 == (2 * d) * n.2 - s * (v.2 - r.2)) by (nonlinear_arith)
        requires
            e == 2 * d,
            g.0 == s * r.0 - (s * v.0 - e * n.0),
            g.1 == s * r.1 - (s * v.1 - e * n.1),
            g.2 == s * r.2 - (s * v.2 - e * n.2),
    ;
    lemma_reflected_component(s, v.0, r.0, e, n.0, g.0, big);
    lemma_reflected_component(s, v.1, r.1, e, n.1, g.1, big);
    lemma_reflected_component(s, v.2, r.2, e, n.2, g.2, big);
    let a = (s * v.0 - e * n.0, s * v.1 - e * n.1, s * v.2 - e * n.2);
    let aa = a.0 * a.0 + a.1 * a.1 + a.2 * a.2;
    assert(ss * rr == ss * (r.0 * r.0) + ss * (r.1 * r.1) + ss * (r.2 * r.2) && ss * aa == ss * (
    a.0 * a.0) + ss * (a.1 * a.1) + ss * (a.2 * a.2) && s4 * uu == s4 * (v.0 * v.0) + s4 * (v.1
        * v.1) + s4 * (v.2 * v.2) && (big * big) * nn == (big * big) * (n.0 * n.0) + (big * big)
        * (n.1 * n.1) + (big * big) * (n.2 * n.2) && big * vn == big * (v.0 * n.0) + big * (v.1
        * n.1) + big * (v.2 * n.2)) by (nonlinear_arith)
        requires
            rr == r.0 * r.0 + r.1 * r.1 + r.2 * r.2,
            aa == a.0 * a.0 + a.1 * a.1 + a.2 * a.2,
            uu == v.0 * v.0 + v.1 * v.1 + v.2 * v.2,
            nn == n.0 * n.0 + n.1 * n.1 + n.2 * n.2,
            vn == v.0 * n.0 + v.1 * n.1 + v.2 * n.2,
    ;
    assert(ss * (big * vn) == ss * (big * (v.0 * n.0)) + ss * (big * (v.1 * n.1)) + ss * (big * (
    v.2 * n.2))) by (nonlinear_arith)
        requires
            big * vn == big * (v.0 * n.0) + big * (v.1 * n.1) + big * (v.2 * n.2),
    ;
    // s^2 |a|^2 = s^4 |u|^2 - z, with z = 2 s^2 big (u . n) - big^2 (n . n)
    let z = 2 * (ss * (big * vn)) - (big * big) * nn;
    assert(ss * aa == s4 * uu - z);
    // z = 2 big ((u . n) (s^2 - n . n) + h (n . n))
    let inner = vn * (ss - nn) + h * nn;
    assert(z == 2 * (big * inner)) by (nonlinear_arith)
        requires
            z == 2 * (ss * (big * vn)) - (big * big) * nn,
            big == 2 * (vn - h),
            inner == vn * (ss - nn) + h * nn,
    ;
    let bound = 6 * s * (s + 8);
    assert(-bound <= vn <= bound) by (nonlinear_arith)
        requires
            bound == 6 * s * (s + 8),
            vn == v.0 * n.0 + v.1 * n.1 + v.2 * n.2,
            -(2 * s) <= v.0 <= 2 * s,
            -(2 * s) <= v.1 <= 2 * s,
            -(2 * s) <= v.2 <= 2 * s,
            -(s + 8) <= n.0 <= s + 8,
            -(s + 8) <= n.1 <= s + 8,
            -(s + 8) <= n.2 <= s + 8,
            s > 0,
    ;
    assert(ss >= 0 && nn >= 0) by (nonlinear_arith)
        requires
            ss == s * s,
            nn == n.0 * n.0 + n.1 * n.1 + n.2 * n.2,
    ;
    assert(-(bound * (16 * s)) <= vn * (ss - nn) <= bound * (16 * s)) by (nonlinear_arith)
        requires
            -bound <= vn <= bound,
            -(16 * s) <= ss - nn <= 16 * s,
            bound >= 0,
            s > 0,
    ;
    assert(-((3 * s) * (ss + 16 * s)) <= h * nn <= (3 * s) * (ss + 16 * s)) by (nonlinear_arith)
        requires
            -(3 * s) < h < 3 * s,
            0 <= nn <= ss + 16 * s,
            s > 0,
    ;
    let most = bound * (16 * s) + (3 * s) * (ss + 16 * s);
    assert(bound >= 0 && most >= 0) by (nonlinear_arith)
        requires
            bound == 6 * s * (s + 8),
            most == bound * (16 * s) + (3 * s) * (ss + 16 * s),
            ss == s * s,
            s > 0,
    ;
    assert(-((2 * bound + 6 * s) * most) <= big * inner <= (2 * bound + 6 * s) * most)
        by (nonlinear_arith)
        requires
            -(2 * bound + 6 * s) <= big <= 2 * bound + 6 * s,
            -most <= inner <= most,
            most >= 0,
            bound >= 0,
            s > 0,
    ;
    // together: s^4 (|r|^2 - |u|^2) = s^2 (s^2 |r|^2 - |a|^2) - z
    let part = ss * rr - aa;
    assert(s4 * (rr - uu) == ss * part - z) by (nonlinear_arith)
        requires
            ss * aa == s4 * uu - z,
            part == ss * rr - aa,
            s4 == s * s * s * s,
            ss == s * s,
    ;
    assert(-(3 * (102 * (s * s * s) + s * s)) <= part <= 3 * (102 * (s * s * s) + s * s));
    assert(-(4000 * s) <= rr - uu <= 4000 * s) by (nonlinear_arith)
        requires
            s == 0x1_0000_0000,
            ss == s * s,
            s4 == s * s * s * s,
            bound == 6 * s * (s + 8),
            most == bound * (16 * s) + (3 * s) * (ss + 16 * s),
            s4 * (rr - uu) == ss * part - z,
            -(3 * (102 * (s * s * s) + s * s)) <= part <= 3 * (102 * (s * s * s) + s * s),
            -(2 * ((2 * bound + 6 * s) * most)) <= z <= 2 * ((2 * bound + 6 * s) * most),
    ;
}

} // verus!
