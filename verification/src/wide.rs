//! Unsigned integers of 256 bits.
//!
//! The discriminant of a ray and a sphere is a difference of products of
//! sums of squares. It is formed here without any rounding, so that only its
//! root is rounded.

use crate::fixed::is_floor_sqrt;
use crate::fixed::RAW_MAX;
use crate::fixed::SCALE;
use vstd::arithmetic::power2::lemma2_to64;
use vstd::arithmetic::power2::lemma_pow2_strictly_increases;
use vstd::arithmetic::power2::lemma_pow2_unfold;
use vstd::arithmetic::power2::pow2;
use vstd::prelude::*;

verus! {

/// Two to the power of 64: one limb.
pub const LIMB: u128 = 0x1_0000_0000_0000_0000;

/// Two to the power of 128.
pub open spec fn two_to_128() -> int {
    0x1_0000_0000_0000_0000_0000_0000_0000_0000int
}

/// An unsigned integer of 256 bits: `hi * 2^128 + lo`.
#[derive(Clone, Copy, Debug, PartialEq, Eq, Structural)]
pub struct Wide {
    pub hi: u128,
    pub lo: u128,
}

impl Wide {
    /// The integer that the two halves stand for.
    pub open spec fn view(self) -> int {
        self.hi * two_to_128() + self.lo
    }

    /// The product of `a` and `b`, which always fits.
    pub fn product(a: u128, b: u128) -> (r: Wide)
        ensures
            r@ == a * b,
    {
        let a0: u128 = a % LIMB;
        let a1: u128 = a / LIMB;
        let b0: u128 = b % LIMB;
        let b1: u128 = b / LIMB;
        proof {
            lemma_limb_product(a0 as int, b0 as int);
            lemma_limb_product(a0 as int, b1 as int);
            lemma_limb_product(a1 as int, b0 as int);
            lemma_limb_product(a1 as int, b1 as int);
        }
        let p00: u128 = a0 * b0;
        let p01: u128 = a0 * b1;
        let p10: u128 = a1 * b0;
        let p11: u128 = a1 * b1;
        let t: u128 = p00 / LIMB + p01 % LIMB + p10 % LIMB;
        let lo: u128 = p00 % LIMB + (t % LIMB) * LIMB;
        let hi: u128 = p11 + p01 / LIMB + p10 / LIMB + t / LIMB;
        proof {
            let w = LIMB as int;
            assert(a * b == p11 * (w * w) + (p01 + p10) * w + p00) by (nonlinear_arith)
                requires
                    a == a1 * w + a0,
                    b == b1 * w + b0,
                    p00 == a0 * b0,
                    p01 == a0 * b1,
                    p10 == a1 * b0,
                    p11 == a1 * b1,
            ;
            assert(w * w == two_to_128());
            let ww = w * w;
            let (q00, r00) = ((p00 / LIMB) as int, (p00 % LIMB) as int);
            let (q01, r01) = ((p01 / LIMB) as int, (p01 % LIMB) as int);
            let (q10, r10) = ((p10 / LIMB) as int, (p10 % LIMB) as int);
            let (qt, rt) = ((t / LIMB) as int, (t % LIMB) as int);
            assert(p00 == q00 * w + r00 && p01 == q01 * w + r01 && p10 == q10 * w + r10 && t
                == qt * w + rt);
            assert(p01 * w == q01 * ww + r01 * w && p10 * w == q10 * ww + r10 * w && t * w == qt
                * ww + rt * w) by (nonlinear_arith)
                requires
                    p01 == q01 * w + r01,
                    p10 == q10 * w + r10,
                    t == qt * w + rt,
                    ww == w * w,
            ;
            assert((p01 + p10) * w == p01 * w + p10 * w && (q00 + r01 + r10) * w == q00 * w + r01
                * w + r10 * w) by (nonlinear_arith);
            assert(hi * ww == p11 * ww + q01 * ww + q10 * ww + qt * ww) by (nonlinear_arith)
                requires
                    hi == p11 + q01 + q10 + qt,
            ;
            assert(lo == r00 + rt * w);
            assert(t == q00 + r01 + r10);
        }
        Wide { hi, lo }
    }

    /// Whether `self` is at most `other`.
    pub fn less_equal(&self, other: &Wide) -> (r: bool)
        ensures
            r == (self@ <= other@),
    {
        self.hi < other.hi || (self.hi == other.hi && self.lo <= other.lo)
    }

    /// The sum of `self` and `other`, where that fits.
    pub(crate) fn plus(&self, other: &Wide) -> (r: Wide)
        requires
            self@ + other@ < two_to_128() * two_to_128(),
        ensures
            r@ == self@ + other@,
    {
        proof {
            assert(self.hi + other.hi < two_to_128()) by (nonlinear_arith)
                requires
                    self.hi * two_to_128() + self.lo + other.hi * two_to_128() + other.lo
                        < two_to_128() * two_to_128(),
                    self.lo >= 0,
                    other.lo >= 0,
                    two_to_128() > 0,
            ;
        }
        if self.lo > u128::MAX - other.lo {
            proof {
                assert(self.hi + other.hi + 1 < two_to_128()) by (nonlinear_arith)
                    requires
                        self.hi * two_to_128() + self.lo + other.hi * two_to_128() + other.lo
                            < two_to_128() * two_to_128(),
                        self.lo + other.lo >= two_to_128(),
                        two_to_128() > 0,
                ;
            }
            Wide { hi: self.hi + other.hi + 1, lo: self.lo - (u128::MAX - other.lo) - 1 }
        } else {
            Wide { hi: self.hi + other.hi, lo: self.lo + other.lo }
        }
    }

    /// The difference of `self` and `other`, where `other` is not larger.
    pub(crate) fn minus(&self, other: &Wide) -> (r: Wide)
        requires
            other@ <= self@,
        ensures
            r@ == self@ - other@,
    {
        proof {
            assert(other.hi <= self.hi) by (nonlinear_arith)
                requires
                    other.hi * two_to_128() + other.lo <= self.hi * two_to_128() + self.lo,
                    self.lo < two_to_128(),
                    other.lo >= 0,
                    two_to_128() > 0,
            ;
        }
        if self.lo >= other.lo {
            Wide { hi: self.hi - other.hi, lo: self.lo - other.lo }
        } else {
            Wide { hi: self.hi - other.hi - 1, lo: self.lo + (u128::MAX - other.lo) + 1 }
        }
    }

    /// The square root of `self`, rounded down, where `self` is below 2^252.
    pub(crate) fn root(&self) -> (r: u128)
        requires
            self@ < 0x1000_0000_0000_0000_0000_0000_0000_0000_0000_0000_0000_0000_0000_0000_0000_0000int,
        ensures
            is_floor_sqrt(self@, r as int),
            r < 0x4000_0000_0000_0000_0000_0000_0000_0000,
    {
        let mut lo: u128 = 0;
        let mut hi: u128 = 0x4000_0000_0000_0000_0000_0000_0000_0000;
        assert(0x4000_0000_0000_0000_0000_0000_0000_0000int
            * 0x4000_0000_0000_0000_0000_0000_0000_0000int
            == 0x1000_0000_0000_0000_0000_0000_0000_0000_0000_0000_0000_0000_0000_0000_0000_0000int);
        assert(self@ >= 0) by (nonlinear_arith)
            requires
                self@ == self.hi * two_to_128() + self.lo,
                two_to_128() > 0,
        ;
        while hi - lo > 1
            invariant
                lo < hi <= 0x4000_0000_0000_0000_0000_0000_0000_0000,
                lo * lo <= self@,
                self@ < hi * hi,
            decreases hi - lo,
        {
            let mid: u128 = lo + (hi - lo) / 2;
            let square = Wide::product(mid, mid);
            if square.less_equal(self) {
                lo = mid;
            } else {
                hi = mid;
            }
        }
        lo
    }
}

/// The product of two limbs fits 128 bits, and leaves room for two carries.
proof fn lemma_limb_product(a: int, b: int)
    requires
        0 <= a < 0x1_0000_0000_0000_0000,
        0 <= b < 0x1_0000_0000_0000_0000,
    ensures
        0 <= a * b <= 0xffff_ffff_ffff_fffe_0000_0000_0000_0001,
{
    assert(0 <= a * b <= 0xffff_ffff_ffff_ffff * 0xffff_ffff_ffff_ffff) by (nonlinear_arith)
        requires
            0 <= a <= 0xffff_ffff_ffff_ffff,
            0 <= b <= 0xffff_ffff_ffff_ffff,
    ;
}

/// What `scaled_quotient` gives: `num 2^32 / den`, rounded down, and at most
/// the largest raw value.
pub open spec fn scaled_quotient_spec(num: int, den: int) -> int {
    if (num * SCALE) / den > RAW_MAX {
        RAW_MAX as int
    } else {
        (num * SCALE) / den
    }
}

/// The quotient of `num` times 2^32 by `den`, rounded down and saturated at
/// the largest raw value, for a numerator below 2^127 and a positive
/// denominator up to 2^125.
pub(crate) fn scaled_quotient(num: u128, den: u128) -> (r: u128)
    requires
        0 < den <= 0x2000_0000_0000_0000_0000_0000_0000_0000,
    ensures
        r == scaled_quotient_spec(num as int, den as int),
        r <= RAW_MAX,
{
    let whole: u128 = num / den;
    let rest: u128 = num % den;
    proof {
        vstd::arithmetic::div_mod::lemma_fundamental_div_mod(num as int, den as int);
        assert(den * whole == whole * den) by (nonlinear_arith);
    }
    if whole >= 0x8000_0000 {
        proof {
            assert(num * SCALE >= (0x8000_0000 * SCALE) * den) by (nonlinear_arith)
                requires
                    num >= whole * den,
                    whole >= 0x8000_0000,
                    den > 0,
            ;
            vstd::arithmetic::div_mod::lemma_div_is_ordered(
                (0x8000_0000 * SCALE) * den,
                num * SCALE,
                den as int,
            );
            assert((0x8000_0000 * SCALE) * den == den * (0x8000_0000 * SCALE))
                by (nonlinear_arith);
            vstd::arithmetic::div_mod::lemma_div_multiples_vanish(
                0x8000_0000 * SCALE,
                den as int,
            );
        }
        return RAW_MAX as u128;
    }
    let mut r: u128 = rest;
    let mut q: u128 = 0;
    let mut k: u32 = 0;
    proof {
        lemma2_to64();
        assert(rest * 1 == rest) by (nonlinear_arith);
        assert(0 * den == 0) by (nonlinear_arith);
    }
    while k < 32
        invariant
            k <= 32,
            0 < den <= 0x2000_0000_0000_0000_0000_0000_0000_0000,
            r < den,
            q < pow2(k as nat),
            pow2(k as nat) <= 0x1_0000_0000,
            q * den + r == rest * pow2(k as nat),
        decreases 32 - k,
    {
        proof {
            lemma_pow2_unfold((k + 1) as nat);
            lemma2_to64();
            if k + 1 < 32 {
                lemma_pow2_strictly_increases((k + 1) as nat, 32);
            }
            let p = pow2(k as nat) as int;
            assert((2 * q) * den + 2 * r == rest * (2 * p) && (2 * q + 1) * den + (2 * r - den)
                == rest * (2 * p)) by (nonlinear_arith)
                requires
                    q * den + r == rest * p,
            ;
        }
        r = 2 * r;
        q = 2 * q;
        if r >= den {
            r = r - den;
            q = q + 1;
        }
        k = k + 1;
    }
    proof {
        lemma2_to64();
        let s = SCALE as int;
        assert(num * s == (whole * s + q) * den + r) by (nonlinear_arith)
            requires
                num == whole * den + rest,
                q * den + r == rest * s,
        ;
        vstd::arithmetic::div_mod::lemma_fundamental_div_mod_converse(
            num * s,
            den as int,
            whole * s + q,
            r as int,
        );
    }
    whole * (SCALE as u128) + q
}

} // verus!
