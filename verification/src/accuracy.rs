//! How far rounding can move the length of a unit vector from one.

use crate::arithmetic::lemma_div_at_most_one;
use crate::arithmetic::lemma_product_squared;
use crate::fixed::floor_sqrt;
use crate::fixed::lemma_floor_sqrt_exists;
use crate::fixed::lemma_product_sign;
use crate::fixed::magnitude;
use crate::fixed::Fixed;
use crate::fixed::RAW_MAX;
use crate::fixed::SCALE;
use crate::vec3::lemma_square_of_magnitude;
use crate::vec3::Vec3;
use vstd::prelude::*;
use vstd::std_specs::ops::DivSpec;

verus! {

/// The raw value of a quarter: from this length on, the unit vector is one
/// long within the last two binary digits.
pub const QUARTER_RAW: i64 = 0x4000_0000;

/// Whether the length of the vector is representable, so that it is
/// computed without saturation.
pub open spec fn measurable(a: Vec3) -> bool {
    floor_sqrt(a.norm_spec()) <= RAW_MAX
}

/// The length of a measurable vector is the root of the exact sum of the
/// squares, rounded down.
pub proof fn lemma_length_is_floor(a: Vec3)
    requires
        measurable(a),
    ensures
        0 <= a.length_spec().raw,
        a.length_spec().raw * a.length_spec().raw <= a.norm_spec(),
        a.norm_spec() < (a.length_spec().raw + 1) * (a.length_spec().raw + 1),
{
    lemma_square_of_magnitude(a.x.raw as int);
    lemma_square_of_magnitude(a.y.raw as int);
    lemma_square_of_magnitude(a.z.raw as int);
    lemma_floor_sqrt_exists(a.norm_spec());
}

/// No component of a vector is longer than the vector.
proof fn lemma_component_at_most_length(x: int, n: int, l: int)
    requires
        l >= 0,
        x * x <= n,
        n < (l + 1) * (l + 1),
    ensures
        -l <= x <= l,
{
    assert(-l <= x <= l) by (nonlinear_arith)
        requires
            l >= 0,
            x * x < (l + 1) * (l + 1),
    ;
}

/// What dividing a component by the length gives: the quotient `u` with
/// `|u| d <= |x| 2^32 < |u| d + d`, which lies between minus one and one.
proof fn lemma_division_rounding(x: Fixed, d: Fixed)
    requires
        d.raw > 0,
        -d.raw <= x.raw <= d.raw,
    ensures
        magnitude(x.div_spec(d).raw as int) * d.raw <= magnitude(x.raw as int) * SCALE,
        magnitude(x.raw as int) * SCALE < magnitude(x.div_spec(d).raw as int) * d.raw + d.raw,
        -SCALE <= x.div_spec(d).raw <= SCALE,
{
    let s = SCALE as int;
    let m = magnitude(x.raw as int);
    let n = m * s;
    let dd = d.raw as int;
    lemma_product_sign(x.raw as int, s);
    lemma_div_at_most_one(x, d);
    assert(magnitude(s) == s);
    assert(0 <= n) by (nonlinear_arith)
        requires
            n == m * 0x1_0000_0000,
            0 <= m,
    ;
    vstd::arithmetic::div_mod::lemma_fundamental_div_mod(n, dd);
    vstd::arithmetic::div_mod::lemma_mod_bound(n, dd);
    vstd::arithmetic::div_mod::lemma_div_pos_is_pos(n, dd);
    let u = n / dd;
    assert(dd * u == u * dd) by (nonlinear_arith);
}

/// The unit vector of every vector whose length is representable and not
/// zero has components between minus one and one, and a representable
/// length.
pub proof fn lemma_unit_vector_fits(a: Vec3)
    requires
        measurable(a),
        a.length_spec().raw > 0,
    ensures
        -SCALE <= a.unit_vector_spec().x.raw <= SCALE,
        -SCALE <= a.unit_vector_spec().y.raw <= SCALE,
        -SCALE <= a.unit_vector_spec().z.raw <= SCALE,
        measurable(a.unit_vector_spec()),
{
    let l = a.length_spec().raw as int;
    let n = a.norm_spec();
    let unit = a.unit_vector_spec();
    lemma_length_is_floor(a);
    assert(a.x.raw * a.x.raw >= 0 && a.y.raw * a.y.raw >= 0 && a.z.raw * a.z.raw >= 0)
        by (nonlinear_arith);
    lemma_component_at_most_length(a.x.raw as int, n, l);
    lemma_component_at_most_length(a.y.raw as int, n, l);
    lemma_component_at_most_length(a.z.raw as int, n, l);
    lemma_division_rounding(a.x, a.length_spec());
    lemma_division_rounding(a.y, a.length_spec());
    lemma_division_rounding(a.z, a.length_spec());
    let m = unit.norm_spec();
    assert(unit.x.raw * unit.x.raw >= 0 && unit.y.raw * unit.y.raw >= 0 && unit.z.raw
        * unit.z.raw >= 0) by (nonlinear_arith);
    lemma_floor_sqrt_exists(m);
    let root = floor_sqrt(m);
    assert(root <= RAW_MAX) by (nonlinear_arith)
        requires
            root >= 0,
            root * root <= m,
            m == unit.x.raw * unit.x.raw + unit.y.raw * unit.y.raw + unit.z.raw * unit.z.raw,
            -0x1_0000_0000 <= unit.x.raw <= 0x1_0000_0000,
            -0x1_0000_0000 <= unit.y.raw <= 0x1_0000_0000,
            -0x1_0000_0000 <= unit.z.raw <= 0x1_0000_0000,
    ;
}

/// The unit vector of every vector whose length is representable and not
/// zero is one long up to rounding: its computed length falls short of one
/// by at most four units of the last place, and exceeds one by less than
/// one unit of the last place over the length of the vector. From a length
/// of a quarter on, that is within three units of the last place.
pub proof fn lemma_unit_vector_length(a: Vec3)
    requires
        measurable(a),
        a.length_spec().raw > 0,
    ensures
        a.unit_vector_spec().length_spec().raw >= SCALE - 4,
        (a.unit_vector_spec().length_spec().raw - SCALE) * a.length_spec().raw < SCALE,
        a.length_spec().raw >= QUARTER_RAW ==> a.unit_vector_spec().length_spec().raw <= SCALE
            + 3,
{
    let s = SCALE as int;
    let l = a.length_spec().raw as int;
    let n = a.norm_spec();
    let unit = a.unit_vector_spec();
    lemma_length_is_floor(a);
    assert(a.x.raw * a.x.raw >= 0 && a.y.raw * a.y.raw >= 0 && a.z.raw * a.z.raw >= 0)
        by (nonlinear_arith);
    lemma_component_at_most_length(a.x.raw as int, n, l);
    lemma_component_at_most_length(a.y.raw as int, n, l);
    lemma_component_at_most_length(a.z.raw as int, n, l);
    lemma_division_rounding(a.x, a.length_spec());
    lemma_division_rounding(a.y, a.length_spec());
    lemma_division_rounding(a.z, a.length_spec());
    let m = unit.norm_spec();
    assert(unit.x.raw * unit.x.raw >= 0 && unit.y.raw * unit.y.raw >= 0 && unit.z.raw
        * unit.z.raw >= 0) by (nonlinear_arith);
    lemma_floor_sqrt_exists(m);
    let root = floor_sqrt(m);
    assert(root <= RAW_MAX) by (nonlinear_arith)
        requires
            root >= 0,
            root * root <= m,
            m == unit.x.raw * unit.x.raw + unit.y.raw * unit.y.raw + unit.z.raw * unit.z.raw,
            -0x1_0000_0000 <= unit.x.raw <= 0x1_0000_0000,
            -0x1_0000_0000 <= unit.y.raw <= 0x1_0000_0000,
            -0x1_0000_0000 <= unit.z.raw <= 0x1_0000_0000,
    ;
    let r = unit.length_spec().raw as int;
    assert(r == root);
    let (x, y, z) = (
        magnitude(a.x.raw as int),
        magnitude(a.y.raw as int),
        magnitude(a.z.raw as int),
    );
    let (u, v, w) = (
        magnitude(unit.x.raw as int),
        magnitude(unit.y.raw as int),
        magnitude(unit.z.raw as int),
    );
    assert(n == x * x + y * y + z * z && m == u * u + v * v + w * w) by (nonlinear_arith)
        requires
            n == a.x.raw * a.x.raw + a.y.raw * a.y.raw + a.z.raw * a.z.raw,
            m == unit.x.raw * unit.x.raw + unit.y.raw * unit.y.raw + unit.z.raw * unit.z.raw,
            x == magnitude(a.x.raw as int),
            y == magnitude(a.y.raw as int),
            z == magnitude(a.z.raw as int),
            u == magnitude(unit.x.raw as int),
            v == magnitude(unit.y.raw as int),
            w == magnitude(unit.z.raw as int),
    ;
    lemma_unit_norm_above(x, y, z, u, v, w, l, n, m);
    lemma_unit_norm_below(x, y, z, u, v, w, l, n, m);
    lemma_root_at_most(r, m, l, n);
    lemma_root_at_least(r, m, l, n, x + y + z);
    if l >= QUARTER_RAW {
        assert(r <= s + 3) by (nonlinear_arith)
            requires
                (r - s) * l < s,
                l >= 0x4000_0000,
                s == 0x1_0000_0000,
        ;
    }
}

/// The exact sum of squares of the unit vector, times the square of the
/// length, is at most the square of one times the exact sum of squares of
/// the vector.
pub proof fn lemma_unit_norm_above(x: int, y: int, z: int, u: int, v: int, w: int, l: int, n: int, m: int)
    requires
        0 <= u && u * l <= x * SCALE,
        0 <= v && v * l <= y * SCALE,
        0 <= w && w * l <= z * SCALE,
        l >= 0,
        n == x * x + y * y + z * z,
        m == u * u + v * v + w * w,
    ensures
        m * (l * l) <= n * (SCALE * SCALE),
{
    let s = SCALE as int;
    lemma_square_ordered(u * l, x * s);
    lemma_square_ordered(v * l, y * s);
    lemma_square_ordered(w * l, z * s);
    lemma_product_squared(u, l);
    lemma_product_squared(v, l);
    lemma_product_squared(w, l);
    lemma_product_squared(x, s);
    lemma_product_squared(y, s);
    lemma_product_squared(z, s);
    assert((u * u + v * v + w * w) * (l * l) == (u * u) * (l * l) + (v * v) * (l * l) + (w * w) * (
    l * l)) by (nonlinear_arith);
    assert((x * x + y * y + z * z) * (s * s) == (x * x) * (s * s) + (y * y) * (s * s) + (z * z) * (
    s * s)) by (nonlinear_arith);
}

/// The exact sum of squares of the unit vector, times the square of the
/// length, falls short of the square of one times the exact sum of squares
/// of the vector by less than `2 (x + y + z) 2^32` times the length.
pub proof fn lemma_unit_norm_below(x: int, y: int, z: int, u: int, v: int, w: int, l: int, n: int, m: int)
    requires
        0 <= u && x * SCALE < u * l + l,
        0 <= v && y * SCALE < v * l + l,
        0 <= w && z * SCALE < w * l + l,
        0 <= x && 0 <= y && 0 <= z,
        l >= 0,
        n == x * x + y * y + z * z,
        m == u * u + v * v + w * w,
    ensures
        m * (l * l) + 2 * (x + y + z) * SCALE * l >= n * (SCALE * SCALE),
{
    let s = SCALE as int;
    lemma_square_shortfall(x * s, u * l, l);
    lemma_square_shortfall(y * s, v * l, l);
    lemma_square_shortfall(z * s, w * l, l);
    lemma_product_squared(u, l);
    lemma_product_squared(v, l);
    lemma_product_squared(w, l);
    lemma_product_squared(x, s);
    lemma_product_squared(y, s);
    lemma_product_squared(z, s);
    assert((u * u + v * v + w * w) * (l * l) == (u * u) * (l * l) + (v * v) * (l * l) + (w * w) * (
    l * l)) by (nonlinear_arith);
    assert((x * x + y * y + z * z) * (s * s) == (x * x) * (s * s) + (y * y) * (s * s) + (z * z) * (
    s * s)) by (nonlinear_arith);
    assert(2 * (x + y + z) * s * l == 2 * (x * s) * l + 2 * (y * s) * l + 2 * (z * s) * l)
        by (nonlinear_arith);
}

/// Squaring keeps the order of numbers that are not negative.
pub proof fn lemma_square_ordered(a: int, b: int)
    requires
        0 <= a <= b,
    ensures
        a * a <= b * b,
{
    assert(a * a <= b * b) by (nonlinear_arith)
        requires
            0 <= a <= b,
    ;
}

/// Where `b` falls short of `a` by less than `d`, the square of `b` falls
/// short of the square of `a` by less than `2 a d`.
proof fn lemma_square_shortfall(a: int, b: int, d: int)
    requires
        0 <= b,
        0 <= a < b + d,
        0 <= d,
    ensures
        b * b + 2 * a * d >= a * a,
{
    assert(b * b + 2 * a * d >= a * a) by (nonlinear_arith)
        requires
            0 <= b,
            0 <= a < b + d,
            0 <= d,
    ;
}

/// From the bounds on the exact sums of squares to the upper bound on the
/// computed length of the unit vector.
proof fn lemma_root_at_most(r: int, m: int, l: int, n: int)
    requires
        r >= 0,
        r * r <= m,
        l > 0,
        n < (l + 1) * (l + 1),
        m * (l * l) <= n * (SCALE * SCALE),
    ensures
        (r - SCALE) * l < SCALE,
{
    let s = SCALE as int;
    let ll = l * l;
    let ss = s * s;
    if r * l >= (l + 1) * s {
        lemma_square_ordered((l + 1) * s, r * l);
        lemma_product_squared(r, l);
        lemma_product_squared(l + 1, s);
        assert((r * r) * ll <= m * ll) by (nonlinear_arith)
            requires
                r * r <= m,
                ll >= 0,
        ;
        assert(n * ss < ((l + 1) * (l + 1)) * ss) by (nonlinear_arith)
            requires
                n < (l + 1) * (l + 1),
                ss > 0,
        ;
        assert(false);
    }
    assert((r - s) * l == r * l - s * l && (l + 1) * s == s * l + s) by (nonlinear_arith);
}

/// From the bounds on the exact sums of squares to the lower bound on the
/// computed length of the unit vector.
proof fn lemma_root_at_least(r: int, m: int, l: int, n: int, t: int)
    requires
        r >= 0,
        m < (r + 1) * (r + 1),
        l > 0,
        l * l <= n,
        0 <= t <= 3 * l,
        m * (l * l) + 2 * t * SCALE * l >= n * (SCALE * SCALE),
    ensures
        r >= SCALE - 4,
{
    let s = SCALE as int;
    let bound = s - 4;
    let ll = l * l;
    let ss = s * s;
    let high = (r + 1) * (r + 1);
    if r + 1 <= bound {
        assert(high <= bound * bound) by (nonlinear_arith)
            requires
                high == (r + 1) * (r + 1),
                0 <= r + 1 <= bound,
        ;
        assert(bound * bound == ss - 8 * s + 16) by (nonlinear_arith)
            requires
                bound == s - 4,
                ss == s * s,
        ;
        assert(ll > 0) by (nonlinear_arith)
            requires
                ll == l * l,
                l > 0,
        ;
        assert(m * ll <= (high - 1) * ll) by (nonlinear_arith)
            requires
                m <= high - 1,
                ll >= 0,
        ;
        assert(n * ss >= ll * ss) by (nonlinear_arith)
            requires
                n >= ll,
                ss >= 0,
        ;
        assert(2 * t * s * l <= 6 * s * ll) by (nonlinear_arith)
            requires
                0 <= t <= 3 * l,
                l > 0,
                s > 0,
                ll == l * l,
        ;
        assert((high - 1) * ll <= (ss - 8 * s + 15) * ll) by (nonlinear_arith)
            requires
                high <= ss - 8 * s + 16,
                ll >= 0,
        ;
        assert((ss - 8 * s + 15) * ll + 6 * s * ll < ll * ss) by (nonlinear_arith)
            requires
                ll > 0,
                s == 0x1_0000_0000,
        ;
        assert(false);
    }
}

} // verus!
