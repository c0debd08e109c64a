//! Color sources: solid colors, checkerboards, image lookups and
//! procedural marble noise.

use vstd::prelude::*;

use std::sync::Arc;

use crate::fixed::{fdiv, fmul_sat, fx_div_sat, fx_mul_sat, sat64, sat_to_i64, tdiv, tdiv128, SCALE};
use crate::perlin::{perlin_wf, spec_turb_abs, Perlin};
use crate::rng::arc_clone;
use crate::rtw_image::{image_wf, spec_pixel_index, RtwImage};
use crate::trig::{sin_fx, spec_sin};
use crate::vec3::{spec_scale, Point3, Vec3};

verus! {

/// Octaves used by the marble noise texture.
pub const TURB_DEPTH: i32 = 7;

pub enum TextureType {
    SolidColor { color_value: Vec3 },
    CheckerTexture { inv_scale: i64, even: Arc<TextureType>, odd: Arc<TextureType> },
    ImageTexture { image: RtwImage },
    NoiseTexture { noise: Perlin, scale: i64 },
}

pub open spec fn texture_wf(t: TextureType) -> bool
    decreases t,
{
    match t {
        TextureType::SolidColor { .. } => true,
        TextureType::CheckerTexture { even, odd, .. } => texture_wf(*even) && texture_wf(*odd),
        TextureType::ImageTexture { image } => image_wf(image),
        TextureType::NoiseTexture { noise, .. } => perlin_wf(noise),
    }
}

/// Clamp a texture coordinate into `[0, 1]`.
pub open spec fn spec_clamp01(x: int) -> int {
    if x < 0 {
        0
    } else if x > SCALE {
        SCALE as int
    } else {
        x
    }
}

/// One channel of an image texel scaled into `[0, 1]`.
pub open spec fn spec_byte_color(b: int) -> int {
    tdiv(b * SCALE, 255)
}

/// The color a texture yields at surface coordinates `(u, v)` and point
/// `p`.
pub open spec fn spec_texture_value(t: TextureType, u: int, v: int, p: Vec3) -> Vec3
    decreases t,
{
    match t {
        TextureType::SolidColor { color_value } => color_value,
        TextureType::CheckerTexture { inv_scale, even, odd } => {
            let x_int = sat64((inv_scale * u) / (SCALE as int * SCALE as int));
            let y_int = sat64((inv_scale * v) / (SCALE as int * SCALE as int));
            if (x_int + y_int) % 2 == 0 {
                spec_texture_value(*even, u, v, p)
            } else {
                spec_texture_value(*odd, u, v, p)
            }
        },
        TextureType::ImageTexture { image } => {
            if image.height <= 0 {
                Vec3 { x: 0, y: SCALE, z: SCALE }
            } else {
                let uc = spec_clamp01(u);
                let vc = SCALE - spec_clamp01(v);
                let i = tdiv(uc * image.width, SCALE as int);
                let j = tdiv(vc * image.height, SCALE as int);
                let idx = spec_pixel_index(image, i, j);
                Vec3 {
                    x: spec_byte_color(image.data@[idx] as int) as i64,
                    y: spec_byte_color(image.data@[idx + 1] as int) as i64,
                    z: spec_byte_color(image.data@[idx + 2] as int) as i64,
                }
            }
        },
        TextureType::NoiseTexture { noise, scale } => {
            let s = spec_scale(p, scale as int);
            let arg = sat64(s.z + 10 * spec_turb_abs(noise, s, TURB_DEPTH as int));
            let gray = fmul_sat(SCALE / 2, sat64(spec_sin(arg) + SCALE));
            Vec3 { x: gray as i64, y: gray as i64, z: gray as i64 }
        },
    }
}

impl TextureType {
    pub fn value(&self, u: i64, v: i64, p: &Point3) -> (r: Vec3)
        requires
            texture_wf(*self),
        ensures
            r == spec_texture_value(*self, u as int, v as int, *p),
        decreases *self,
    {
        match self {
            TextureType::SolidColor { color_value } => *color_value,
            TextureType::CheckerTexture { inv_scale, even, odd } => {
                proof {
                    crate::fixed::lemma_i64_product_in_i128(*inv_scale as int, u as int);
                    crate::fixed::lemma_i64_product_in_i128(*inv_scale as int, v as int);
                }
                let x_int = floor_div_s2((*inv_scale as i128) * (u as i128));
                let y_int = floor_div_s2((*inv_scale as i128) * (v as i128));
                let parity = parity_of_sum(x_int, y_int);
                if parity {
                    even.value(u, v, p)
                } else {
                    odd.value(u, v, p)
                }
            },
            TextureType::ImageTexture { image } => {
                if image.height == 0 {
                    return Vec3 { x: 0, y: SCALE, z: SCALE };
                }
                let uc = clamp01(u);
                let vc = SCALE - clamp01(v);
                proof {
                    crate::fixed::lemma_abs_mul_bound(
                        uc as int,
                        image.width as int,
                        SCALE as int,
                        image.width as int,
                    );
                    crate::fixed::lemma_abs_mul_bound(
                        vc as int,
                        image.height as int,
                        SCALE as int,
                        image.height as int,
                    );
                    crate::fixed::lemma_tdiv_bounds(uc as int * image.width as int, SCALE as int);
                    crate::fixed::lemma_tdiv_bounds(vc as int * image.height as int, SCALE as int);
                    crate::fixed::lemma_tdiv_mono(
                        uc as int * image.width as int,
                        SCALE as int * image.width as int,
                        SCALE as int,
                    );
                    crate::fixed::lemma_tdiv_mono(
                        vc as int * image.height as int,
                        SCALE as int * image.height as int,
                        SCALE as int,
                    );
                    crate::fixed::lemma_tdiv_exact(image.width as int, SCALE as int);
                    crate::fixed::lemma_tdiv_exact(image.height as int, SCALE as int);
                    assert(SCALE as int * image.width as int == image.width as int * SCALE as int)
                        by (nonlinear_arith);
                    assert(SCALE as int * image.height as int == image.height as int * SCALE as int)
                        by (nonlinear_arith);
                }
                let i = tdiv128((uc as i128) * (image.width as i128), SCALE as i128);
                let j = tdiv128((vc as i128) * (image.height as i128), SCALE as i128);
                let pixel = image.pixel_data(i as usize, j as usize);
                Vec3 {
                    x: byte_color(pixel[0]),
                    y: byte_color(pixel[1]),
                    z: byte_color(pixel[2]),
                }
            },
            TextureType::NoiseTexture { noise, scale } => {
                let s = p.scale(*scale);
                let tv = noise.turb(s, TURB_DEPTH);
                let arg = sat_to_i64(s.z as i128 + 10 * (tv as i128));
                let sv = sin_fx(arg);
                let gray = fx_mul_sat(SCALE / 2, sat_to_i64(sv as i128 + SCALE as i128));
                Vec3 { x: gray, y: gray, z: gray }
            },
        }
    }

    pub fn new_solid(color_value: Vec3) -> (r: TextureType)
        ensures
            r == (TextureType::SolidColor { color_value }),
    {
        TextureType::SolidColor { color_value }
    }

    pub fn solid_from_rgb(red: i64, green: i64, blue: i64) -> (r: TextureType)
        ensures
            r == (TextureType::SolidColor { color_value: Vec3 { x: red, y: green, z: blue } }),
    {
        TextureType::SolidColor { color_value: Vec3 { x: red, y: green, z: blue } }
    }

    /// A checkerboard with square size `scale` (in texture coordinates).
    pub fn new_checker(scale: i64, even: Arc<TextureType>, odd: Arc<TextureType>) -> (r:
        TextureType)
        requires
            scale != 0,
            texture_wf(*even),
            texture_wf(*odd),
        ensures
            texture_wf(r),
            r == (TextureType::CheckerTexture {
                inv_scale: sat64(fdiv(SCALE as int, scale as int)) as i64,
                even,
                odd,
            }),
    {
        TextureType::CheckerTexture { inv_scale: fx_div_sat(SCALE, scale), even, odd }
    }

    pub fn new_noise(scale: i64) -> (r: TextureType)
        ensures
            texture_wf(r),
            r matches TextureType::NoiseTexture { scale: s, .. } && s == scale,
    {
        TextureType::NoiseTexture { scale, noise: Perlin::default() }
    }
}

/// Floor-divide a raw product by one squared scale factor, saturated.
fn floor_div_s2(n: i128) -> (r: i64)
    requires
        n > i128::MIN,
    ensures
        r as int == sat64((n as int) / (SCALE as int * SCALE as int)),
{
    let d: i128 = (SCALE as i128) * (SCALE as i128);
    let q0 = tdiv128(n, d);
    proof {
        crate::fixed::lemma_trunc_rem_range(n as int, d as int);
        crate::fixed::lemma_tdiv_bounds(n as int, d as int);
    }
    let rem = n - q0 * d;
    let q = if rem < 0 {
        q0 - 1
    } else {
        q0
    };
    proof {
        lemma_floor_from_trunc(n as int, SCALE as int * SCALE as int, q as int);
    }
    sat_to_i64(q)
}

/// Relate the adjusted truncating quotient to the Euclidean one.
proof fn lemma_floor_from_trunc(n: int, d: int, q: int)
    requires
        d > 0,
        (n - tdiv(n, d) * d < 0 ==> q == tdiv(n, d) - 1),
        (n - tdiv(n, d) * d >= 0 ==> q == tdiv(n, d)),
    ensures
        q == n / d,
{
    crate::fixed::lemma_trunc_rem_range(n, d);
    let r0 = n - tdiv(n, d) * d;
    if r0 < 0 {
        assert((tdiv(n, d) - 1) * d == tdiv(n, d) * d - d) by (nonlinear_arith);
        vstd::arithmetic::div_mod::lemma_fundamental_div_mod_converse_div(n, d, q, r0 + d);
    } else {
        vstd::arithmetic::div_mod::lemma_fundamental_div_mod_converse_div(n, d, q, r0);
    }
}

/// Whether the sum of two lattice indices is even.
fn parity_of_sum(a: i64, b: i64) -> (r: bool)
    ensures
        r == ((a as int + b as int) % 2 == 0),
{
    let s = (a as i128) + (b as i128);
    let q0 = tdiv128(s, 2);
    proof {
        crate::fixed::lemma_trunc_rem_range(s as int, 2);
    }
    let rem = s - q0 * 2;
    proof {
        let si = s as int;
        let t = tdiv(si, 2);
        if si - t * 2 == 0 {
            vstd::arithmetic::div_mod::lemma_fundamental_div_mod_converse_mod(si, 2, t, 0);
        } else if si - t * 2 > 0 {
            vstd::arithmetic::div_mod::lemma_fundamental_div_mod_converse_mod(si, 2, t, 1);
        } else {
            assert((t - 1) * 2 == t * 2 - 2) by (nonlinear_arith);
            vstd::arithmetic::div_mod::lemma_fundamental_div_mod_converse_mod(si, 2, t - 1, 1);
        }
    }
    rem == 0
}

/// Clamp a coordinate into `[0, 1]`.
fn clamp01(x: i64) -> (r: i64)
    ensures
        r as int == spec_clamp01(x as int),
        0 <= r <= SCALE,
{
    if x < 0 {
        0
    } else if x > SCALE {
        SCALE
    } else {
        x
    }
}

/// One byte channel as a fixed-point color component.
fn byte_color(b: u8) -> (r: i64)
    ensures
        r as int == spec_byte_color(b as int),
        0 <= r <= SCALE,
{
    proof {
        crate::fixed::lemma_tdiv_bounds(b as int * SCALE as int, 255);
        crate::fixed::lemma_tdiv_mono(b as int * SCALE as int, 255 * SCALE as int, 255);
        crate::fixed::lemma_tdiv_exact(SCALE as int, 255);
        assert(b as int * SCALE as int <= 255 * SCALE as int) by (nonlinear_arith)
            requires
                0 <= b <= 255,
        ;
        assert(255 * SCALE as int == SCALE as int * 255) by (nonlinear_arith);
        assert(b as int * SCALE as int >= 0) by (nonlinear_arith)
            requires
                b >= 0,
        ;
    }
    let q = tdiv128((b as i128) * (SCALE as i128), 255);
    q as i64
}

} // verus!
