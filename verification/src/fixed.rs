//! Signed fixed-point scalars with 32 fractional bits.
//!
//! A `Fixed` stands for the rational number `raw / 2^32`. Every operation
//! computes the exact mathematical result, rounds it toward zero to the
//! nearest representable value and saturates at the ends of the range, which
//! is kept symmetric about zero so that negation is exact on every result.

use vstd::prelude::*;
use vstd::std_specs::ops::DivSpec;

verus! {

/// The raw value that stands for one.
pub const SCALE: i64 = 0x1_0000_0000;

/// The largest raw value; its negation is the smallest that an operation returns.
pub const RAW_MAX: i64 = 0x7fff_ffff_ffff_ffff;

/// Limits a mathematical integer to the symmetric raw range.
pub open spec fn clamp_raw(v: int) -> int {
    if v > RAW_MAX as int {
        RAW_MAX as int
    } else if v < -(RAW_MAX as int) {
        -(RAW_MAX as int)
    } else {
        v
    }
}

/// The absolute value of a mathematical integer.
pub open spec fn magnitude(v: int) -> int {
    if v < 0 {
        -v
    } else {
        v
    }
}

/// The quotient `n / d` rounded toward zero.
pub open spec fn quotient_toward_zero(n: int, d: int) -> int
    recommends
        d != 0,
{
    if (n < 0) == (d < 0) {
        magnitude(n) / magnitude(d)
    } else {
        -(magnitude(n) / magnitude(d))
    }
}

/// The raw value of a product: the exact product of the two numbers, rounded
/// toward zero and saturated.
pub open spec fn product_raw(a: int, b: int) -> int {
    clamp_raw(quotient_toward_zero(a * b, SCALE as int))
}

/// The raw value of a quotient: the exact quotient of the two numbers,
/// rounded toward zero and saturated. A quotient by zero saturates by the
/// sign of the dividend, and zero by zero is zero.
pub open spec fn quotient_raw(a: int, b: int) -> int {
    if b != 0 {
        clamp_raw(quotient_toward_zero(a * SCALE, b))
    } else if a > 0 {
        RAW_MAX as int
    } else if a < 0 {
        -(RAW_MAX as int)
    } else {
        0
    }
}

/// Whether `r` is the square root of `n` rounded down.
pub open spec fn is_floor_sqrt(n: int, r: int) -> bool {
    r >= 0 && r * r <= n && n < (r + 1) * (r + 1)
}

/// The square root of a non-negative integer, rounded down.
pub open spec fn floor_sqrt(n: int) -> int
    recommends
        n >= 0,
{
    choose|r: int| is_floor_sqrt(n, r)
}

/// Every non-negative integer has a rounded-down square root.
pub proof fn lemma_floor_sqrt_exists(n: int)
    requires
        n >= 0,
    ensures
        is_floor_sqrt(n, floor_sqrt(n)),
    decreases n,
{
    if n == 0 {
        assert(is_floor_sqrt(0, 0));
    } else {
        lemma_floor_sqrt_exists(n - 1);
        let r = floor_sqrt(n - 1);
        if n < (r + 1) * (r + 1) {
            assert(is_floor_sqrt(n, r));
        } else {
            assert(is_floor_sqrt(n, r + 1)) by (nonlinear_arith)
                requires
                    r >= 0,
                    r * r <= n - 1,
                    n - 1 < (r + 1) * (r + 1),
                    n >= (r + 1) * (r + 1),
            ;
        }
    }
}

/// At most one integer is the rounded-down square root of `n`.
pub proof fn lemma_floor_sqrt_unique(n: int, r: int)
    requires
        is_floor_sqrt(n, r),
    ensures
        floor_sqrt(n) == r,
{
    let s = floor_sqrt(n);
    assert(is_floor_sqrt(n, s));
    assert(s == r) by (nonlinear_arith)
        requires
            s >= 0,
            r >= 0,
            s * s <= n,
            n < (s + 1) * (s + 1),
            r * r <= n,
            n < (r + 1) * (r + 1),
    ;
}

/// A fixed-point number: the rational `raw / 2^32`.
#[derive(Clone, Copy, Debug, PartialEq, Eq, Structural)]
pub struct Fixed {
    pub raw: i64,
}

impl vstd::std_specs::ops::NegSpecImpl for Fixed {
    open spec fn obeys_neg_spec() -> bool {
        true
    }

    open spec fn neg_req(self) -> bool {
        true
    }

    open spec fn neg_spec(self) -> Fixed {
        Fixed { raw: clamp_raw(-self.raw) as i64 }
    }
}

impl vstd::std_specs::ops::AddSpecImpl for Fixed {
    open spec fn obeys_add_spec() -> bool {
        true
    }

    open spec fn add_req(self, rhs: Fixed) -> bool {
        true
    }

    open spec fn add_spec(self, rhs: Fixed) -> Fixed {
        Fixed { raw: clamp_raw(self.raw + rhs.raw) as i64 }
    }
}

impl vstd::std_specs::ops::SubSpecImpl for Fixed {
    open spec fn obeys_sub_spec() -> bool {
        true
    }

    open spec fn sub_req(self, rhs: Fixed) -> bool {
        true
    }

    open spec fn sub_spec(self, rhs: Fixed) -> Fixed {
        Fixed { raw: clamp_raw(self.raw - rhs.raw) as i64 }
    }
}

impl vstd::std_specs::ops::MulSpecImpl for Fixed {
    open spec fn obeys_mul_spec() -> bool {
        true
    }

    open spec fn mul_req(self, rhs: Fixed) -> bool {
        true
    }

    open spec fn mul_spec(self, rhs: Fixed) -> Fixed {
        Fixed { raw: product_raw(self.raw as int, rhs.raw as int) as i64 }
    }
}

impl vstd::std_specs::ops::DivSpecImpl for Fixed {
    open spec fn obeys_div_spec() -> bool {
        true
    }

    open spec fn div_req(self, rhs: Fixed) -> bool {
        true
    }

    open spec fn div_spec(self, rhs: Fixed) -> Fixed {
        Fixed { raw: quotient_raw(self.raw as int, rhs.raw as int) as i64 }
    }
}

impl core::ops::Neg for Fixed {
    type Output = Fixed;

    /// The negation. It is exact for every value that an operation returns;
    /// the one raw value below those saturates.
    fn neg(self) -> (r: Fixed)
        ensures
            r.raw == clamp_raw(-self.raw),
    {
        if self.raw == i64::MIN {
            Fixed { raw: RAW_MAX }
        } else {
            Fixed { raw: -self.raw }
        }
    }
}

impl core::ops::Add for Fixed {
    type Output = Fixed;

    /// The sum, saturated.
    fn add(self, rhs: Fixed) -> (r: Fixed)
        ensures
            r.raw == clamp_raw(self.raw + rhs.raw),
    {
        let s: i128 = self.raw as i128 + rhs.raw as i128;
        if s > RAW_MAX as i128 {
            Fixed { raw: RAW_MAX }
        } else if s < -(RAW_MAX as i128) {
            Fixed { raw: -RAW_MAX }
        } else {
            Fixed { raw: s as i64 }
        }
    }
}

impl core::ops::Sub for Fixed {
    type Output = Fixed;

    /// The difference, saturated.
    fn sub(self, rhs: Fixed) -> (r: Fixed)
        ensures
            r.raw == clamp_raw(self.raw - rhs.raw),
    {
        let s: i128 = self.raw as i128 - rhs.raw as i128;
        if s > RAW_MAX as i128 {
            Fixed { raw: RAW_MAX }
        } else if s < -(RAW_MAX as i128) {
            Fixed { raw: -RAW_MAX }
        } else {
            Fixed { raw: s as i64 }
        }
    }
}

impl core::ops::Mul for Fixed {
    type Output = Fixed;

    /// The product, rounded toward zero and saturated.
    fn mul(self, rhs: Fixed) -> (r: Fixed)
        ensures
            r.raw == product_raw(self.raw as int, rhs.raw as int),
    {
        let ma: u128 = unsigned_magnitude(self.raw) as u128;
        let mb: u128 = unsigned_magnitude(rhs.raw) as u128;
        assert(ma * mb <= 0x8000_0000_0000_0000 * 0x8000_0000_0000_0000) by (nonlinear_arith)
            requires
                ma <= 0x8000_0000_0000_0000,
                mb <= 0x8000_0000_0000_0000,
        ;
        let q: u128 = (ma * mb) / (SCALE as u128);
        let negative = (self.raw < 0) != (rhs.raw < 0);
        proof {
            lemma_product_sign(self.raw as int, rhs.raw as int);
        }
        signed_saturated(negative, q)
    }
}

impl core::ops::Div for Fixed {
    type Output = Fixed;

    /// The quotient, rounded toward zero and saturated. Division by zero
    /// saturates in the direction of the dividend's sign; zero by zero is zero.
    fn div(self, rhs: Fixed) -> (r: Fixed)
        ensures
            r.raw == quotient_raw(self.raw as int, rhs.raw as int),
    {
        let ma: u128 = unsigned_magnitude(self.raw) as u128;
        let negative = (self.raw < 0) != (rhs.raw < 0);
        if rhs.raw == 0 {
            if self.raw > 0 {
                Fixed { raw: RAW_MAX }
            } else if self.raw < 0 {
                Fixed { raw: -RAW_MAX }
            } else {
                Fixed { raw: 0 }
            }
        } else {
            let mb: u128 = unsigned_magnitude(rhs.raw) as u128;
            assert(ma * 0x1_0000_0000 <= 0x8000_0000_0000_0000 * 0x1_0000_0000) by (nonlinear_arith)
                requires
                    ma <= 0x8000_0000_0000_0000,
            ;
            let q: u128 = (ma * (SCALE as u128)) / mb;
            proof {
                lemma_product_sign(self.raw as int, SCALE as int);
                assert(magnitude(SCALE as int) == SCALE);
            }
            signed_saturated(negative, q)
        }
    }
}

/// The magnitude of a raw value as an unsigned integer.
pub fn unsigned_magnitude(v: i64) -> (m: u64)
    ensures
        m as int == magnitude(v as int),
{
    if v >= 0 {
        v as u64
    } else if v == i64::MIN {
        0x8000_0000_0000_0000u64
    } else {
        (-v) as u64
    }
}

/// The square root of `n`, rounded down.
pub fn integer_sqrt(n: u128) -> (r: u128)
    ensures
        is_floor_sqrt(n as int, r as int),
        r == floor_sqrt(n as int),
        r < 0x1_0000_0000_0000_0000,
{
    let mut lo: u128 = 0;
    let mut hi: u128 = 0x1_0000_0000_0000_0000;
    assert(0x1_0000_0000_0000_0000int * 0x1_0000_0000_0000_0000int
        == 0x1_0000_0000_0000_0000_0000_0000_0000_0000int);
    while hi - lo > 1
        invariant
            lo < hi <= 0x1_0000_0000_0000_0000,
            lo * lo <= n,
            n < hi * hi,
        decreases hi - lo,
    {
        let mid: u128 = lo + (hi - lo) / 2;
        assert(mid * mid < 0x1_0000_0000_0000_0000 * 0x1_0000_0000_0000_0000)
            by (nonlinear_arith)
            requires
                mid < 0x1_0000_0000_0000_0000,
        ;
        if mid * mid <= n {
            lo = mid;
        } else {
            hi = mid;
        }
    }
    proof {
        lemma_floor_sqrt_unique(n as int, lo as int);
    }
    lo
}

/// Attaches a sign to a magnitude and saturates.
fn signed_saturated(negative: bool, mag: u128) -> (r: Fixed)
    ensures
        r.raw as int == clamp_raw(
            if negative {
                -(mag as int)
            } else {
                mag as int
            },
        ),
{
    if mag > RAW_MAX as u128 {
        if negative {
            Fixed { raw: -RAW_MAX }
        } else {
            Fixed { raw: RAW_MAX }
        }
    } else {
        let m: i64 = mag as i64;
        if negative {
            Fixed { raw: -m }
        } else {
            Fixed { raw: m }
        }
    }
}

/// The product of two integers has the product of their magnitudes as its
/// magnitude, and is negative only where exactly one factor is.
pub proof fn lemma_product_sign(a: int, b: int)
    ensures
        magnitude(a * b) == magnitude(a) * magnitude(b),
        a * b < 0 ==> (a < 0) != (b < 0),
        (a < 0) != (b < 0) ==> a * b <= 0,
{
    assert(magnitude(a * b) == magnitude(a) * magnitude(b) && (a * b < 0 ==> (a < 0) != (b < 0))
        && ((a < 0) != (b < 0) ==> a * b <= 0)) by (nonlinear_arith);
}

impl Fixed {
    /// The number with the given raw value.
    pub fn from_raw(raw: i64) -> (r: Fixed)
        ensures
            r.raw == raw,
    {
        Fixed { raw }
    }

    /// Zero.
    pub fn zero() -> (r: Fixed)
        ensures
            r.raw == 0,
    {
        Fixed { raw: 0 }
    }

    /// One.
    pub fn one() -> (r: Fixed)
        ensures
            r.raw == SCALE,
    {
        Fixed { raw: SCALE }
    }

    /// The largest value, which serves as an unbounded limit.
    pub fn max_value() -> (r: Fixed)
        ensures
            r.raw == RAW_MAX,
    {
        Fixed { raw: RAW_MAX }
    }

    /// The value of an integer.
    pub open spec fn int_spec(n: int) -> Fixed {
        Fixed { raw: clamp_raw(n * SCALE) as i64 }
    }

    /// The integer `n` as a fixed-point number.
    pub fn from_int(n: i32) -> (r: Fixed)
        ensures
            r == Fixed::int_spec(n as int),
    {
        if n == i32::MIN {
            Fixed { raw: -RAW_MAX }
        } else {
            Fixed { raw: (n as i64) * SCALE }
        }
    }

    /// The fraction `num / den`, rounded toward zero.
    pub fn from_ratio(num: i64, den: i64) -> (r: Fixed)
        ensures
            r == (Fixed { raw: num }).div_spec(Fixed { raw: den }),
    {
        Fixed { raw: num } / Fixed { raw: den }
    }

    /// The square root, rounded down; zero for a negative number.
    pub open spec fn sqrt_spec(self) -> Fixed {
        if self.raw <= 0 {
            Fixed { raw: 0 }
        } else {
            Fixed { raw: floor_sqrt(self.raw * SCALE) as i64 }
        }
    }

    /// The square root of `self`, rounded down to a representable value.
    /// A negative argument gives zero.
    pub fn sqrt(self) -> (r: Fixed)
        ensures
            r == self.sqrt_spec(),
            0 <= r.raw < 0x1_0000_0000_0000,
            self.raw > 0 ==> is_floor_sqrt(self.raw * SCALE, r.raw as int),
    {
        if self.raw <= 0 {
            return Fixed { raw: 0 };
        }
        let n: u128 = (self.raw as u128) * (SCALE as u128);
        let mut lo: u128 = 0;
        let mut hi: u128 = 0x1_0000_0000_0000;
        while hi - lo > 1
            invariant
                lo < hi <= 0x1_0000_0000_0000,
                lo * lo <= n,
                n < hi * hi,
            decreases hi - lo,
        {
            let mid: u128 = lo + (hi - lo) / 2;
            assert(mid * mid < 0x1_0000_0000_0000 * 0x1_0000_0000_0000) by (nonlinear_arith)
                requires
                    mid < 0x1_0000_0000_0000,
            ;
            if mid * mid <= n {
                lo = mid;
            } else {
                hi = mid;
            }
        }
        proof {
            lemma_floor_sqrt_unique(n as int, lo as int);
        }
        Fixed { raw: lo as i64 }
    }

    /// The absolute value, saturated.
    pub open spec fn abs_spec(self) -> Fixed {
        Fixed { raw: clamp_raw(magnitude(self.raw as int)) as i64 }
    }

    /// The absolute value of `self`.
    pub fn abs(self) -> (r: Fixed)
        ensures
            r == self.abs_spec(),
    {
        if self.raw >= 0 {
            self
        } else if self.raw == i64::MIN {
            Fixed { raw: RAW_MAX }
        } else {
            Fixed { raw: -self.raw }
        }
    }

    /// The smaller of two numbers.
    pub open spec fn min_spec(self, other: Fixed) -> Fixed {
        if other.raw < self.raw {
            other
        } else {
            self
        }
    }

    /// The smaller of `self` and `other`.
    pub fn min(self, other: Fixed) -> (r: Fixed)
        ensures
            r == self.min_spec(other),
    {
        if other.raw < self.raw {
            other
        } else {
            self
        }
    }

    /// The number limited to the interval from `low` to `high`.
    pub open spec fn clamp_spec(self, low: Fixed, high: Fixed) -> Fixed {
        if self.raw < low.raw {
            low
        } else if self.raw > high.raw {
            high
        } else {
            self
        }
    }

    /// `self` limited to the interval from `low` to `high`.
    pub fn clamp(self, low: Fixed, high: Fixed) -> (r: Fixed)
        ensures
            r == self.clamp_spec(low, high),
    {
        if self.raw < low.raw {
            low
        } else if self.raw > high.raw {
            high
        } else {
            self
        }
    }
}

} // verus!
