//! Fixed-point trigonometric helpers.
//!
//! Each function computes a polynomial approximation; the contracts state
//! the computed value exactly through spec mirrors, plus the range bounds
//! the callers rely on.

use vstd::prelude::*;

use crate::fixed::{fmul, fx_sqrt, lemma_fmul_units, sat64, sat_to_i64, sqrt_floor, tdiv, tdiv128, SCALE};

verus! {

/// `pi` in fixed-point units.
pub const PI_FX: i64 = 205887;

/// `2 * pi` in fixed-point units.
pub const TAU_FX: i64 = 411775;

/// `pi / 2` in fixed-point units.
pub const HALF_PI_FX: i64 = 102944;

/// `pi / 4` in fixed-point units.
pub const QUARTER_PI_FX: i64 = 51472;

/// Interpolation weight of the arctangent approximation (`0.273`).
pub const ATAN_K: i64 = 17892;

/// Euclidean remainder of `x` by `TAU_FX`, in `[0, TAU_FX)`.
pub open spec fn spec_mod_tau(x: int) -> int {
    x % (TAU_FX as int)
}

/// Bhaskara's sine approximation on `[0, pi]`, in fixed point.
pub open spec fn spec_sin_half(t: int) -> int
    recommends
        0 <= t <= PI_FX,
{
    let prod = t * (PI_FX - t);
    let num = 16 * prod * SCALE;
    let den = 5 * (PI_FX as int) * (PI_FX as int) - 4 * prod;
    tdiv(num, den)
}

/// Fixed-point sine of an angle in radians: reduce modulo `2 * pi`, apply
/// the half-period approximation, clamp into `[-1, 1]`.
pub open spec fn spec_sin(x: int) -> int {
    let t = spec_mod_tau(x);
    let s = if t <= PI_FX {
        spec_sin_half(t)
    } else {
        -spec_sin_half(t - PI_FX)
    };
    if s > SCALE {
        SCALE as int
    } else if s < -SCALE {
        -SCALE as int
    } else {
        s
    }
}

pub open spec fn spec_cos(x: int) -> int {
    spec_sin(x + HALF_PI_FX)
}

/// Arctangent approximation on ratios in `[0, 1]`.
pub open spec fn spec_atan01(z: int) -> int
    recommends
        0 <= z <= SCALE,
{
    fmul(z, QUARTER_PI_FX + fmul(ATAN_K as int, SCALE - z))
}

/// Ratio `|smaller| / |larger|` of the two magnitudes, in `[0, 1]`.
pub open spec fn spec_ratio01(num: int, den: int) -> int
    recommends
        0 <= num <= den,
        0 < den,
{
    tdiv(num * SCALE, den)
}

/// Full-plane arctangent; positive angles toward positive `y`, in
/// `[-pi, pi]`.
pub open spec fn spec_atan2(y: int, x: int) -> int {
    if y == 0 && x == 0 {
        0
    } else {
        let ay = sat64(if y >= 0 {
            y
        } else {
            -y
        });
        let ax = sat64(if x >= 0 {
            x
        } else {
            -x
        });
        let base = if ax >= ay {
            spec_atan01(spec_ratio01(ay, ax))
        } else {
            HALF_PI_FX - spec_atan01(spec_ratio01(ax, ay))
        };
        let mag = if x >= 0 {
            base
        } else {
            PI_FX - base
        };
        if y >= 0 {
            mag
        } else {
            -mag
        }
    }
}

/// Arccosine derived from the arctangent, in `[0, pi]`.
pub open spec fn spec_acos(x: int) -> int
    recommends
        -SCALE <= x <= SCALE,
{
    let sin_sq = SCALE - fmul(x, x);
    let s = sqrt_floor((if sin_sq >= 0 {
        sin_sq
    } else {
        0
    }) * SCALE);
    spec_atan2(s, x)
}

/// Fixed-point sine; the result is the approximation `spec_sin`, always
/// within `[-1, 1]`.
pub fn sin_fx(x: i64) -> (r: i64)
    ensures
        r as int == spec_sin(x as int),
        -SCALE <= r <= SCALE,
{
    let t = mod_tau(x);
    let s = if t <= PI_FX {
        sin_half(t)
    } else {
        -sin_half(t - PI_FX)
    };
    if s > SCALE {
        SCALE
    } else if s < -SCALE {
        -SCALE
    } else {
        s
    }
}

/// Euclidean remainder by `TAU_FX`, in `[0, TAU_FX)`.
fn mod_tau(x: i64) -> (r: i64)
    ensures
        r as int == spec_mod_tau(x as int),
        0 <= r < TAU_FX,
{
    let q = tdiv128(x as i128, TAU_FX as i128);
    proof {
        crate::fixed::lemma_tdiv_bounds(x as int, TAU_FX as int);
        crate::fixed::lemma_i64_product_in_i128(q as i64 as int, TAU_FX as int);
        crate::fixed::lemma_trunc_rem_range(x as int, TAU_FX as int);
    }
    let rem = sat_to_i64(x as i128 - q * (TAU_FX as i128));
    let r = if rem < 0 {
        rem + TAU_FX
    } else {
        rem
    };
    proof {
        if rem < 0 {
            vstd::arithmetic::div_mod::lemma_fundamental_div_mod_converse_mod(
                x as int,
                TAU_FX as int,
                tdiv(x as int, TAU_FX as int) - 1,
                r as int,
            );
        } else {
            vstd::arithmetic::div_mod::lemma_fundamental_div_mod_converse_mod(
                x as int,
                TAU_FX as int,
                tdiv(x as int, TAU_FX as int),
                r as int,
            );
        }
    }
    r
}

/// The half-period core of the sine approximation.
fn sin_half(t: i64) -> (r: i64)
    requires
        0 <= t <= PI_FX,
    ensures
        r as int == spec_sin_half(t as int),
        -4 * SCALE <= r <= 4 * SCALE,
{
    proof {
        let ti = t as int;
        let pi = PI_FX as int;
        assert(0 <= ti * (pi - ti) <= pi * pi) by (nonlinear_arith)
            requires
                0 <= ti <= pi,
        ;
        assert(16 * (ti * (pi - ti)) * SCALE <= 16 * (pi * pi) * SCALE) by (nonlinear_arith)
            requires
                0 <= ti * (pi - ti) <= pi * pi,
        ;
        assert(0 <= 16 * (ti * (pi - ti)) * SCALE) by (nonlinear_arith)
            requires
                0 <= ti * (pi - ti),
        ;
        lemma_sin_half_bound(ti);
    }
    let prod: i128 = (t as i128) * ((PI_FX - t) as i128);
    let num: i128 = 16 * prod * (SCALE as i128);
    let den: i128 = 5 * (PI_FX as i128) * (PI_FX as i128) - 4 * prod;
    let q = tdiv128(num, den);
    q as i64
}

/// The half-period sine approximation stays within four units.
proof fn lemma_sin_half_bound(t: int)
    requires
        0 <= t <= PI_FX,
    ensures
        -(4 * SCALE) <= spec_sin_half(t) <= 4 * SCALE,
{
    let prod = t * (PI_FX - t);
    let num = 16 * prod * SCALE;
    let den = 5 * (PI_FX as int) * (PI_FX as int) - 4 * prod;
    assert(0 <= prod <= (PI_FX as int) * (PI_FX as int)) by (nonlinear_arith)
        requires
            prod == t * (PI_FX - t),
            0 <= t <= PI_FX,
    ;
    assert(den >= (PI_FX as int) * (PI_FX as int));
    assert(num >= 0) by (nonlinear_arith)
        requires
            num == 16 * prod * SCALE,
            prod >= 0,
    ;
    crate::fixed::lemma_tdiv_bounds(num, den);
    assert(tdiv(num, den) >= 0);
    // num <= 4 * SCALE * den  <==>  16 prod S <= 4 S (5 pi^2 - 4 prod)
    // <==> 16 prod <= 20 pi^2 - 16 prod <==> 32 prod <= 20 pi^2, true.
    assert(4 * prod <= (PI_FX as int) * (PI_FX as int)) by (nonlinear_arith)
        requires
            prod == t * (PI_FX - t),
            0 <= t <= PI_FX,
    ;
    assert(num <= 4 * SCALE * den) by (nonlinear_arith)
        requires
            0 <= 4 * prod <= (PI_FX as int) * (PI_FX as int),
            num == 16 * prod * SCALE,
            den == 5 * (PI_FX as int) * (PI_FX as int) - 4 * prod,
    ;
    lemma_tdiv_le_factor(num, den, 4 * SCALE);
}

/// If `0 <= n <= k * d` then `n / d <= k`.
proof fn lemma_tdiv_le_factor(n: int, d: int, k: int)
    requires
        d > 0,
        k >= 0,
        0 <= n <= k * d,
    ensures
        0 <= tdiv(n, d) <= k,
{
    crate::fixed::lemma_tdiv_mono(n, k * d, d);
    crate::fixed::lemma_tdiv_exact(k, d);
    crate::fixed::lemma_tdiv_bounds(n, d);
}

pub fn cos_fx(x: i64) -> (r: i64)
    requires
        x <= i64::MAX - HALF_PI_FX,
    ensures
        r as int == spec_cos(x as int),
        -SCALE <= r <= SCALE,
{
    sin_fx(x + HALF_PI_FX)
}

/// Fixed-point tangent; saturates where the cosine vanishes.
pub fn tan_fx(x: i64) -> (r: i64)
    requires
        x <= i64::MAX - HALF_PI_FX,
    ensures
        r as int == spec_tan(x as int),
{
    let s = sin_fx(x);
    let c = cos_fx(x);
    if c == 0 {
        if s >= 0 {
            i64::MAX
        } else {
            i64::MIN
        }
    } else {
        crate::fixed::fx_div_sat(s, c)
    }
}

pub open spec fn spec_tan(x: int) -> int {
    let s = spec_sin(x);
    let c = spec_cos(x);
    if c == 0 {
        if s >= 0 {
            i64::MAX as int
        } else {
            i64::MIN as int
        }
    } else {
        sat64(crate::fixed::fdiv(s, c))
    }
}

fn atan01(z: i64) -> (r: i64)
    requires
        0 <= z <= SCALE,
    ensures
        r as int == spec_atan01(z as int),
        0 <= r <= HALF_PI_FX,
{
    proof {
        lemma_fmul_units(ATAN_K as int, (SCALE - z) as int, 1, 1);
        lemma_fmul_units(z as int, QUARTER_PI_FX as int + fmul(ATAN_K as int, (SCALE - z) as int), 1, 2);
        lemma_atan01_bound(z as int);
    }
    let inner = QUARTER_PI_FX + crate::fixed::fx_mul(ATAN_K, SCALE - z);
    crate::fixed::fx_mul(z, inner)
}

/// The arctangent core is within `[0, pi / 2]` on `[0, 1]`.
proof fn lemma_atan01_bound(z: int)
    requires
        0 <= z <= SCALE,
    ensures
        0 <= spec_atan01(z) <= HALF_PI_FX,
{
    let k = fmul(ATAN_K as int, SCALE - z);
    crate::fixed::lemma_fmul_bound(ATAN_K as int, SCALE - z, ATAN_K as int, SCALE as int);
    crate::fixed::lemma_tdiv_exact(ATAN_K as int, SCALE as int);
    assert((ATAN_K as int) * SCALE == SCALE * (ATAN_K as int)) by (nonlinear_arith);
    assert(0 <= k <= ATAN_K) by {
        assert(ATAN_K * (SCALE - z) >= 0) by (nonlinear_arith)
            requires
                0 <= z <= SCALE,
        ;
        crate::fixed::lemma_tdiv_bounds(ATAN_K * (SCALE - z), SCALE as int);
        crate::fixed::lemma_tdiv_mono(ATAN_K * (SCALE - z), ATAN_K * SCALE, SCALE as int);
        assert(ATAN_K * (SCALE - z) <= ATAN_K * SCALE) by (nonlinear_arith)
            requires
                0 <= z <= SCALE,
        ;
    }
    let inner = QUARTER_PI_FX + k;
    assert(0 <= inner <= QUARTER_PI_FX + ATAN_K);
    assert(z * inner >= 0) by (nonlinear_arith)
        requires
            z >= 0,
            inner >= 0,
    ;
    assert(z * inner <= SCALE * (QUARTER_PI_FX + ATAN_K)) by (nonlinear_arith)
        requires
            0 <= z <= SCALE,
            0 <= inner <= QUARTER_PI_FX + ATAN_K,
    ;
    crate::fixed::lemma_tdiv_bounds(z * inner, SCALE as int);
    crate::fixed::lemma_tdiv_mono(z * inner, SCALE * (QUARTER_PI_FX + ATAN_K), SCALE as int);
    assert(SCALE * (QUARTER_PI_FX + ATAN_K) == (QUARTER_PI_FX + ATAN_K) * SCALE) by (nonlinear_arith);
    crate::fixed::lemma_tdiv_exact(QUARTER_PI_FX as int + ATAN_K as int, SCALE as int);
}

/// Full-plane arctangent in `[-pi, pi]`.
pub fn atan2_fx(y: i64, x: i64) -> (r: i64)
    ensures
        r as int == spec_atan2(y as int, x as int),
        -PI_FX <= r <= PI_FX,
{
    if y == 0 && x == 0 {
        return 0;
    }
    let ay = if y >= 0 {
        y
    } else {
        sat_to_i64(-(y as i128))
    };
    let ax = if x >= 0 {
        x
    } else {
        sat_to_i64(-(x as i128))
    };
    let base = if ax >= ay {
        let z = ratio01(ay, ax);
        atan01(z)
    } else {
        let z = ratio01(ax, ay);
        HALF_PI_FX - atan01(z)
    };
    let mag = if x >= 0 {
        base
    } else {
        PI_FX - base
    };
    if y >= 0 {
        mag
    } else {
        -mag
    }
}

/// The ratio of a smaller magnitude to a larger one, in `[0, 1]`.
fn ratio01(num: i64, den: i64) -> (r: i64)
    requires
        0 <= num <= den,
        0 < den,
    ensures
        r as int == spec_ratio01(num as int, den as int),
        0 <= r <= SCALE,
{
    proof {
        crate::fixed::lemma_i64_product_in_i128(num as int, SCALE as int);
        assert(num * SCALE <= den * SCALE) by (nonlinear_arith)
            requires
                0 <= num <= den,
        ;
        crate::fixed::lemma_tdiv_bounds(num * SCALE, den as int);
        crate::fixed::lemma_tdiv_mono(num * SCALE, den * SCALE, den as int);
        assert(den * SCALE == SCALE * den) by (nonlinear_arith);
        crate::fixed::lemma_tdiv_exact(SCALE as int, den as int);
    }
    let q = tdiv128((num as i128) * (SCALE as i128), den as i128);
    q as i64
}

/// Arccosine in `[0, pi]` for arguments in `[-1, 1]`.
pub fn acos_fx(x: i64) -> (r: i64)
    requires
        -SCALE <= x <= SCALE,
    ensures
        r as int == spec_acos(x as int),
        0 <= r <= PI_FX,
{
    proof {
        lemma_fmul_units(x as int, x as int, 1, 1);
    }
    let sin_sq = SCALE - crate::fixed::fx_mul(x, x);
    let s = fx_sqrt(if sin_sq >= 0 {
        sin_sq
    } else {
        0
    });
    proof {
        lemma_acos_nonneg(x as int);
    }
    atan2_fx(s, x)
}

/// `spec_atan2` with a nonnegative first argument lands in `[0, pi]`.
proof fn lemma_acos_nonneg(x: int)
    ensures
        forall|s: int| s >= 0 ==> 0 <= #[trigger] spec_atan2(s, x) <= PI_FX,
{
    assert forall|s: int| s >= 0 implies 0 <= #[trigger] spec_atan2(s, x) <= PI_FX by {
        if s == 0 && x == 0 {
        } else {
            let ay = sat64(s);
            let ax = sat64(if x >= 0 {
                x
            } else {
                -x
            });
            if ax >= ay {
                if ax > 0 {
                    lemma_ratio01_range(ay, ax);
                    lemma_atan01_bound(spec_ratio01(ay, ax));
                }
            } else {
                lemma_ratio01_range(ax, ay);
                lemma_atan01_bound(spec_ratio01(ax, ay));
            }
        }
    }
}

proof fn lemma_ratio01_range(num: int, den: int)
    requires
        0 <= num <= den,
        0 < den,
    ensures
        0 <= spec_ratio01(num, den) <= SCALE,
{
    assert(num * SCALE <= den * SCALE) by (nonlinear_arith)
        requires
            0 <= num <= den,
    ;
    assert(num * SCALE >= 0) by (nonlinear_arith)
        requires
            num >= 0,
    ;
    crate::fixed::lemma_tdiv_bounds(num * SCALE, den);
    crate::fixed::lemma_tdiv_mono(num * SCALE, den * SCALE, den);
    assert(den * SCALE == SCALE * den) by (nonlinear_arith);
    crate::fixed::lemma_tdiv_exact(SCALE as int, den);
}

} // verus!
