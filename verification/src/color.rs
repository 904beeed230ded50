//! Colours, and how an accumulated colour becomes a pixel of the image file.

use crate::arithmetic::lemma_sqrt_is_floor;
use crate::fixed::Fixed;
use crate::fixed::SCALE;
use crate::vec3::Vec3;
use vstd::prelude::*;
use vstd::std_specs::ops::DivSpec;
use vstd::std_specs::ops::MulSpec;

verus! {

/// A colour; one is full intensity.
pub type Color = Vec3;

/// The raw value of 0.999, the largest intensity that is encoded.
pub const INTENSITY_MAX_RAW: i64 = 4290672328;

/// The digit zero in ASCII.
pub const ASCII_ZERO: u8 = 48;

/// The space in ASCII.
pub const ASCII_SPACE: u8 = 32;

/// The line feed in ASCII.
pub const ASCII_LINE_FEED: u8 = 10;

/// The decimal digits of `n` in ASCII, without leading zeros.
pub open spec fn decimal(n: nat) -> Seq<u8>
    decreases n,
{
    if n < 10 {
        seq![(ASCII_ZERO + n) as u8]
    } else {
        decimal(n / 10).push((ASCII_ZERO + n % 10) as u8)
    }
}

/// One line of the image file: the three channels of a pixel in decimal,
/// separated by spaces.
pub open spec fn pixel_line(rgb: (u8, u8, u8)) -> Seq<u8> {
    decimal(rgb.0 as nat).push(ASCII_SPACE) + decimal(rgb.1 as nat).push(ASCII_SPACE) + decimal(
        rgb.2 as nat,
    ).push(ASCII_LINE_FEED)
}

/// Appends the decimal digits of `n` to `out`.
pub fn push_decimal(out: &mut Vec<u8>, n: u32)
    ensures
        final(out)@ == old(out)@ + decimal(n as nat),
    decreases n,
{
    if n >= 10 {
        push_decimal(out, n / 10);
    }
    out.push(ASCII_ZERO + (n % 10) as u8);
}

impl Vec3 {
    /// The level from 0 to 255 that encodes one channel of a sum of
    /// `samples_per_pixel` samples: the mean, limited to the interval from 0
    /// to 0.999, under the square root, times 256, without its fraction.
    pub open spec fn channel_level(sum: Fixed, samples_per_pixel: int) -> int {
        let mean = sum.div_spec(Fixed::int_spec(samples_per_pixel));
        let limited = mean.clamp_spec(Fixed { raw: 0 }, Fixed { raw: INTENSITY_MAX_RAW });
        Fixed::int_spec(256).mul_spec(limited.sqrt_spec()).raw / SCALE
    }

    /// The level of a channel fits a byte.
    pub proof fn lemma_channel_level_is_a_byte(sum: Fixed, samples_per_pixel: int)
        ensures
            0 <= Vec3::channel_level(sum, samples_per_pixel) < 256,
    {
        let mean = sum.div_spec(Fixed::int_spec(samples_per_pixel));
        let limited = mean.clamp_spec(Fixed { raw: 0 }, Fixed { raw: INTENSITY_MAX_RAW });
        let encoded = limited.sqrt_spec();
        lemma_sqrt_is_floor(limited);
        assert(encoded.raw < 0x1_0000_0000) by (nonlinear_arith)
            requires
                limited.raw > 0 ==> encoded.raw * encoded.raw <= limited.raw * 0x1_0000_0000,
                limited.raw <= 0 ==> encoded.raw == 0,
                limited.raw <= 4290672328,
                encoded.raw >= 0,
        ;
        assert(256 * SCALE * encoded.raw == SCALE * (256 * encoded.raw)) by (nonlinear_arith);
        vstd::arithmetic::div_mod::lemma_div_multiples_vanish(256 * encoded.raw, SCALE as int);
    }

    /// The byte that encodes one channel of a sum of `samples_per_pixel`
    /// samples.
    pub open spec fn channel_spec(sum: Fixed, samples_per_pixel: int) -> u8 {
        Vec3::channel_level(sum, samples_per_pixel) as u8
    }

    /// Encodes one channel of a sum of `samples_per_pixel` samples: the mean
    /// is limited to the displayable range, corrected for a gamma of two by
    /// the square root, and scaled to a byte.
    pub fn channel(sum: Fixed, samples_per_pixel: i32) -> (r: u8)
        ensures
            r == Vec3::channel_spec(sum, samples_per_pixel as int),
            r as int == Vec3::channel_level(sum, samples_per_pixel as int),
    {
        let mean = sum / Fixed::from_int(samples_per_pixel);
        let limited = mean.clamp(Fixed::zero(), Fixed::from_raw(INTENSITY_MAX_RAW));
        let encoded = limited.sqrt();
        proof {
            Vec3::lemma_channel_level_is_a_byte(sum, samples_per_pixel as int);
        }
        let scaled = Fixed::from_int(256) * encoded;
        (scaled.raw / SCALE) as u8
    }

    /// The pixel that encodes a sum of `samples_per_pixel` samples.
    pub open spec fn to_rgb_spec(self, samples_per_pixel: int) -> (u8, u8, u8) {
        (
            Vec3::channel_spec(self.x, samples_per_pixel),
            Vec3::channel_spec(self.y, samples_per_pixel),
            Vec3::channel_spec(self.z, samples_per_pixel),
        )
    }

    /// Encodes the sum of `samples_per_pixel` samples as a pixel of three
    /// bytes.
    pub fn to_rgb(&self, samples_per_pixel: i32) -> (r: (u8, u8, u8))
        ensures
            r == self.to_rgb_spec(samples_per_pixel as int),
    {
        (
            Vec3::channel(self.x, samples_per_pixel),
            Vec3::channel(self.y, samples_per_pixel),
            Vec3::channel(self.z, samples_per_pixel),
        )
    }

    /// Appends to `out` the line of the image file for the sum of
    /// `samples_per_pixel` samples.
    pub fn write_color(&self, samples_per_pixel: i32, out: &mut Vec<u8>)
        ensures
            final(out)@ == old(out)@ + pixel_line(self.to_rgb_spec(samples_per_pixel as int)),
    {
        let rgb = self.to_rgb(samples_per_pixel);
        push_decimal(out, rgb.0 as u32);
        out.push(ASCII_SPACE);
        push_decimal(out, rgb.1 as u32);
        out.push(ASCII_SPACE);
        push_decimal(out, rgb.2 as u32);
        out.push(ASCII_LINE_FEED);
    }
}

} // verus!
