//! Color accumulation output: averaging, gamma correction, clamping and
//! quantization to bytes.  Writing the bytes out is the caller's business.

use vstd::prelude::*;

use crate::fixed::{sqrt_floor, tdiv, tdiv128, SCALE};
use crate::interval::{spec_clamp, Interval};
use crate::vec3::Vec3;

verus! {

pub type Color = Vec3;

/// Upper clamp of a channel before quantization (`0.999`).
pub const INTENSITY_MAX: i64 = 65470;

/// The quantization factor (`255.999`).
pub const QUANT: i64 = 16777150;

/// Gamma-2 correction: the square root, with negative input flushed to
/// zero.
pub open spec fn spec_linear_to_gamma(c: int) -> int {
    if c <= 0 {
        0
    } else {
        sqrt_floor(c * SCALE)
    }
}

/// One channel: average over the sample count, gamma-correct, clamp to
/// `[0, 0.999]`, quantize by `255.999`.
pub open spec fn spec_channel_byte(c: int, samples_per_pixel: int) -> int
    recommends
        samples_per_pixel > 0,
{
    let scaled = tdiv(c, samples_per_pixel);
    let g = spec_linear_to_gamma(scaled);
    let q = spec_clamp(Interval { min: 0, max: INTENSITY_MAX }, g);
    tdiv(q * QUANT, SCALE * SCALE)
}

/// A fully saturated channel at one sample quantizes to byte 255: the
/// gamma of 1.0 is 1.0, the clamp takes it to 0.999, and
/// `255.999 * 0.999` still truncates to 255.
pub proof fn lemma_saturated_channel()
    ensures
        spec_channel_byte(SCALE as int, 1) == 255,
{
    crate::fixed::lemma_tdiv_exact(SCALE as int, 1);
    assert(tdiv(SCALE as int, 1) == SCALE) by {
        assert(SCALE as int == (SCALE as int) * 1);
    }
    crate::fixed::lemma_sqrt_floor_unique(SCALE as int * SCALE as int, SCALE as int);
    assert(spec_linear_to_gamma(SCALE as int) == SCALE);
    assert(spec_clamp(Interval { min: 0, max: INTENSITY_MAX }, SCALE as int)
        == INTENSITY_MAX);
    assert(tdiv(65470int * 16777150int, 65536int * 65536int) == 255) by {
        assert(65470int * 16777150int == 1098400010500int) by (nonlinear_arith);
        assert(65536int * 65536int == 4294967296int) by (nonlinear_arith);
        assert(1098400010500int / 4294967296int == 255int) by (nonlinear_arith);
    }
}

fn linear_to_gamma(c: i64) -> (r: i64)
    ensures
        r as int == spec_linear_to_gamma(c as int),
        0 <= r <= 1099511627776,
{
    if c <= 0 {
        0
    } else {
        let r = crate::fixed::fx_sqrt(c);
        proof {
            if r as int > 1099511627776 {
                assert((r as int) * (r as int) > 1099511627776 * 1099511627776int)
                    by (nonlinear_arith)
                    requires
                        r as int > 1099511627776,
                ;
                assert((c as int) * (SCALE as int) <= 1099511627776 * 1099511627776int)
                    by (nonlinear_arith)
                    requires
                        0 <= c <= i64::MAX,
                        SCALE == 65536,
                ;
            }
        }
        r
    }
}

/// The three bytes a pixel's accumulated color quantizes to.
pub fn color_bytes(pixel_color: &Color, samples_per_pixel: i32) -> (r: [u8; 3])
    requires
        samples_per_pixel > 0,
    ensures
        r[0] == spec_channel_byte(pixel_color.x as int, samples_per_pixel as int),
        r[1] == spec_channel_byte(pixel_color.y as int, samples_per_pixel as int),
        r[2] == spec_channel_byte(pixel_color.z as int, samples_per_pixel as int),
{
    [
        channel_byte(pixel_color.x, samples_per_pixel),
        channel_byte(pixel_color.y, samples_per_pixel),
        channel_byte(pixel_color.z, samples_per_pixel),
    ]
}

fn channel_byte(c: i64, samples_per_pixel: i32) -> (r: u8)
    requires
        samples_per_pixel > 0,
    ensures
        r == spec_channel_byte(c as int, samples_per_pixel as int),
{
    let scaled = tdiv128(c as i128, samples_per_pixel as i128) as i64;
    proof {
        crate::fixed::lemma_tdiv_bounds(c as int, samples_per_pixel as int);
    }
    let g = linear_to_gamma(scaled);
    let q = Interval { min: 0, max: INTENSITY_MAX }.clamp(g);
    proof {
        assert(0 <= spec_clamp(Interval { min: 0, max: INTENSITY_MAX }, g as int)
            <= INTENSITY_MAX);
        crate::fixed::lemma_abs_mul_bound(q as int, QUANT as int, 65470, 16777150);
        crate::fixed::lemma_tdiv_bounds(q as int * QUANT as int, SCALE as int * SCALE as int);
        assert(q as int * QUANT as int >= 0) by (nonlinear_arith)
            requires
                q >= 0,
                QUANT > 0,
        ;
        assert(q as int * QUANT as int <= 65470int * 16777150int);
        crate::fixed::lemma_tdiv_mono(
            q as int * QUANT as int,
            65470int * 16777150int,
            SCALE as int * SCALE as int,
        );
        assert((65470int * 16777150) / (65536int * 65536) < 256) by (nonlinear_arith);
    }
    let b = tdiv128((q as i128) * (QUANT as i128), (SCALE as i128) * (SCALE as i128));
    b as u8
}

} // verus!
