//! Fixed-point scalar arithmetic.
//!
//! A scalar is an `i64` holding `SCALE` units per 1.0; all derived
//! quantities are specified exactly over `int` with `tdiv` (truncating
//! division) and `sat64` (saturation to the `i64` range).

use vstd::prelude::*;

verus! {

/// Number of fixed-point units per 1.0.
pub const SCALE: i64 = 65536;

/// Largest magnitude allowed for a scene coordinate, chosen so that the
/// intermediate products of the intersection routines fit in `i128`.
pub const COORD_MAX: i64 = 268435456;

/// Truncating (round-toward-zero) division for a positive divisor.
pub open spec fn tdiv(n: int, d: int) -> int
    recommends
        d > 0,
{
    if n >= 0 {
        n / d
    } else {
        -((-n) / d)
    }
}

/// Truncating division for any nonzero divisor.
pub open spec fn sdiv(n: int, d: int) -> int
    recommends
        d != 0,
{
    if d < 0 {
        tdiv(-n, -d)
    } else {
        tdiv(n, d)
    }
}

/// Clamp an integer into the `i64` range.
pub open spec fn sat64(n: int) -> int {
    if n > i64::MAX {
        i64::MAX as int
    } else if n < i64::MIN {
        i64::MIN as int
    } else {
        n
    }
}

/// The fixed-point product of two scalars.
pub open spec fn fmul(a: int, b: int) -> int {
    tdiv(a * b, SCALE as int)
}

/// The fixed-point quotient of two scalars.
pub open spec fn fdiv(a: int, b: int) -> int
    recommends
        b != 0,
{
    sdiv(a * SCALE, b)
}

pub proof fn lemma_tdiv_bounds(n: int, d: int)
    requires
        d > 0,
    ensures
        n >= 0 ==> 0 <= tdiv(n, d) <= n,
        n < 0 ==> n <= tdiv(n, d) <= 0,
{
    if n >= 0 {
        vstd::arithmetic::div_mod::lemma_div_nonincreasing(n, d);
        vstd::arithmetic::div_mod::lemma_div_pos_is_pos(n, d);
    } else {
        vstd::arithmetic::div_mod::lemma_div_nonincreasing(-n, d);
        vstd::arithmetic::div_mod::lemma_div_pos_is_pos(-n, d);
    }
}

/// Truncating division of an exact multiple recovers the factor.
pub proof fn lemma_tdiv_exact(k: int, d: int)
    requires
        d > 0,
    ensures
        tdiv(k * d, d) == k,
{
    if k >= 0 {
        vstd::arithmetic::div_mod::lemma_div_multiples_vanish(k, d);
        assert(k * d == d * k) by (nonlinear_arith);
    } else {
        assert(-(k * d) == d * (-k)) by (nonlinear_arith);
        vstd::arithmetic::div_mod::lemma_div_multiples_vanish(-k, d);
    }
}

/// Truncating division is monotone in the dividend.
pub proof fn lemma_tdiv_mono(n1: int, n2: int, d: int)
    requires
        d > 0,
        n1 <= n2,
    ensures
        tdiv(n1, d) <= tdiv(n2, d),
{
    if n1 >= 0 {
        vstd::arithmetic::div_mod::lemma_div_is_ordered(n1, n2, d);
    } else if n2 < 0 {
        vstd::arithmetic::div_mod::lemma_div_is_ordered(-n2, -n1, d);
    } else {
        lemma_tdiv_bounds(n1, d);
        lemma_tdiv_bounds(n2, d);
    }
}

/// Floor of the nonnegative square root of `n`.
pub open spec fn sqrt_floor(n: int) -> int
    recommends
        n >= 0,
{
    choose|r: int| r >= 0 && #[trigger] (r * r) <= n < (r + 1) * (r + 1)
}

/// `sqrt_floor` is pinned down by its defining inequalities.
pub proof fn lemma_sqrt_floor_unique(n: int, r: int)
    requires
        r >= 0,
        r * r <= n,
        n < (r + 1) * (r + 1),
    ensures
        sqrt_floor(n) == r,
{
    assert(r >= 0 && r * r <= n < (r + 1) * (r + 1));
    let s = sqrt_floor(n);
    assert(s >= 0 && s * s <= n < (s + 1) * (s + 1));
    assert(s == r) by (nonlinear_arith)
        requires
            r >= 0,
            r * r <= n,
            n < (r + 1) * (r + 1),
            s >= 0,
            s * s <= n,
            n < (s + 1) * (s + 1),
    ;
}

/// The defining inequalities of `sqrt_floor` hold for every nonnegative
/// argument.
pub proof fn lemma_sqrt_floor_props(n: int)
    requires
        n >= 0,
    ensures
        sqrt_floor(n) >= 0,
        sqrt_floor(n) * sqrt_floor(n) <= n,
        n < (sqrt_floor(n) + 1) * (sqrt_floor(n) + 1),
    decreases n,
{
    if n == 0 {
        assert((0int) * (0int) <= 0int < (0int + 1) * (0int + 1)) by (nonlinear_arith);
        assert(exists|r: int| r >= 0 && #[trigger] (r * r) <= 0 < (r + 1) * (r + 1));
    } else {
        lemma_sqrt_floor_props(n - 1);
        let r0 = sqrt_floor(n - 1);
        if n < (r0 + 1) * (r0 + 1) {
            assert(r0 >= 0 && r0 * r0 <= n < (r0 + 1) * (r0 + 1));
            assert(exists|r: int| r >= 0 && #[trigger] (r * r) <= n < (r + 1) * (r + 1));
        } else {
            assert(n == (r0 + 1) * (r0 + 1));
            assert((r0 + 1) * (r0 + 1) < (r0 + 2) * (r0 + 2)) by (nonlinear_arith)
                requires
                    r0 >= 0,
            ;
            assert(r0 + 1 >= 0 && (r0 + 1) * (r0 + 1) <= n < (r0 + 2) * (r0 + 2));
            assert(exists|r: int| r >= 0 && #[trigger] (r * r) <= n < (r + 1) * (r + 1));
        }
        let s = sqrt_floor(n);
        assert(s >= 0 && s * s <= n < (s + 1) * (s + 1));
    }
}

/// The magnitude of a fixed-point product is bounded by the product of the
/// bounds, scaled down.
pub proof fn lemma_fmul_bound(a: int, b: int, bound_a: int, bound_b: int)
    requires
        -bound_a <= a <= bound_a,
        -bound_b <= b <= bound_b,
    ensures
        -tdiv(bound_a * bound_b, SCALE as int) <= fmul(a, b) <= tdiv(bound_a * bound_b, SCALE as int),
{
    lemma_abs_mul_bound(a, b, bound_a, bound_b);
    lemma_tdiv_mono(a * b, bound_a * bound_b, SCALE as int);
    lemma_tdiv_mono(-(bound_a * bound_b), a * b, SCALE as int);
}

/// The magnitude of a product is bounded by the product of the bounds.
pub proof fn lemma_abs_mul_bound(a: int, b: int, bound_a: int, bound_b: int)
    requires
        -bound_a <= a <= bound_a,
        -bound_b <= b <= bound_b,
    ensures
        -(bound_a * bound_b) <= a * b <= bound_a * bound_b,
{
    assert(-(bound_a * bound_b) <= a * b <= bound_a * bound_b) by (nonlinear_arith)
        requires
            -bound_a <= a <= bound_a,
            -bound_b <= b <= bound_b,
    ;
}

/// A fixed-point product of factors bounded by `ka` and `kb` units stays
/// within `ka * kb` units, and in particular inside the `i64` range.
pub proof fn lemma_fmul_units(a: int, b: int, ka: int, kb: int)
    requires
        0 <= ka,
        0 <= kb,
        ka * kb <= 0x10000000000,
        -(ka * SCALE) <= a <= ka * SCALE,
        -(kb * SCALE) <= b <= kb * SCALE,
    ensures
        -(ka * kb * SCALE) <= fmul(a, b) <= ka * kb * SCALE,
        sat64(fmul(a, b)) == fmul(a, b),
{
    assert(-(ka * kb * SCALE * SCALE) <= a * b <= ka * kb * SCALE * SCALE) by (nonlinear_arith)
        requires
            0 <= ka,
            0 <= kb,
            -(ka * SCALE) <= a <= ka * SCALE,
            -(kb * SCALE) <= b <= kb * SCALE,
    ;
    assert(ka * kb * SCALE * SCALE == (ka * kb * SCALE) * SCALE) by (nonlinear_arith);
    lemma_tdiv_mono(a * b, (ka * kb * SCALE) * SCALE, SCALE as int);
    lemma_tdiv_mono(-((ka * kb * SCALE) * SCALE), a * b, SCALE as int);
    lemma_tdiv_exact(ka * kb * SCALE, SCALE as int);
    assert(ka * kb * SCALE <= 0x10000000000 * SCALE) by (nonlinear_arith)
        requires
            0 <= ka,
            0 <= kb,
            ka * kb <= 0x10000000000,
    ;
}

/// Truncating division of an `i128` by a positive divisor.
pub fn tdiv128(n: i128, d: i128) -> (q: i128)
    requires
        d > 0,
        n > i128::MIN,
    ensures
        q == tdiv(n as int, d as int),
{
    if n >= 0 {
        let q = (n as u128) / (d as u128);
        q as i128
    } else {
        let m = ((-n) as u128) / (d as u128);
        proof {
            lemma_tdiv_bounds(-n as int, d as int);
        }
        -(m as i128)
    }
}

/// Truncating division of an `i128` by any nonzero divisor.
pub fn sdiv128(n: i128, d: i128) -> (q: i128)
    requires
        d != 0,
        n > i128::MIN,
        d > i128::MIN,
    ensures
        q == sdiv(n as int, d as int),
{
    if d < 0 {
        if n == i128::MIN {
            // unreachable under the precondition; keeps the negation total
            0
        } else {
            tdiv128(-n, -d)
        }
    } else {
        tdiv128(n, d)
    }
}

/// Fixed-point product saturated into `i64`, as a spec value.
pub open spec fn fmul_sat(a: int, b: int) -> int {
    sat64(fmul(a, b))
}

/// Euclidean quotient and remainder by a positive divisor: the remainder
/// is in `[0, d)` and `x == q * d + r`.
pub fn floor_div_rem(x: i64, d: i64) -> (qr: (i64, i64))
    requires
        d >= 2,
    ensures
        qr.0 as int == (x as int) / (d as int),
        qr.1 as int == (x as int) % (d as int),
        0 <= qr.1 < d,
{
    let q0 = tdiv128(x as i128, d as i128);
    proof {
        lemma_tdiv_bounds(x as int, d as int);
        lemma_trunc_rem_range(x as int, d as int);
        assert(q0 * (d as i128) == tdiv(x as int, d as int) * (d as int));
    }
    let r0 = sat_to_i64(x as i128 - q0 * (d as i128));
    proof {
        if x < 0 {
            vstd::arithmetic::div_mod::lemma_div_is_ordered_by_denominator(
                -(x as int),
                2,
                d as int,
            );
            vstd::arithmetic::div_mod::lemma_div_is_ordered(
                -(x as int),
                0x8000000000000000,
                2,
            );
        }
    }
    let (q, r) = if r0 < 0 {
        ((q0 as i64) - 1, r0 + d)
    } else {
        (q0 as i64, r0)
    };
    proof {
        assert((q0 as int - 1) * (d as int) == q0 as int * (d as int) - d) by (nonlinear_arith);
        assert(x as int == (q as int) * (d as int) + r);
        vstd::arithmetic::div_mod::lemma_fundamental_div_mod_converse_mod(
            x as int,
            d as int,
            q as int,
            r as int,
        );
        vstd::arithmetic::div_mod::lemma_fundamental_div_mod_converse_div(
            x as int,
            d as int,
            q as int,
            r as int,
        );
    }
    (q, r)
}

/// The truncating quotient leaves a remainder strictly within one divisor
/// of zero, on the side of the dividend.
pub proof fn lemma_trunc_rem_range(x: int, d: int)
    requires
        d > 0,
    ensures
        x >= 0 ==> 0 <= x - tdiv(x, d) * d < d,
        x < 0 ==> -d < x - tdiv(x, d) * d <= 0,
{
    if x >= 0 {
        let q = x / d;
        assert(tdiv(x, d) == q);
        vstd::arithmetic::div_mod::lemma_fundamental_div_mod(x, d);
        vstd::arithmetic::div_mod::lemma_mod_bound(x, d);
        assert(q * d == d * q) by (nonlinear_arith);
    } else {
        let q = (-x) / d;
        assert(tdiv(x, d) == -q);
        vstd::arithmetic::div_mod::lemma_fundamental_div_mod(-x, d);
        vstd::arithmetic::div_mod::lemma_mod_bound(-x, d);
        assert((-q) * d == -(d * q)) by (nonlinear_arith);
    }
}

/// Clamp an `i128` into the `i64` range.
pub fn sat_to_i64(n: i128) -> (r: i64)
    ensures
        r as int == sat64(n as int),
{
    if n > i64::MAX as i128 {
        i64::MAX
    } else if n < i64::MIN as i128 {
        i64::MIN
    } else {
        n as i64
    }
}

/// Floor of the square root of a `u128`.
pub fn isqrt128(n: u128) -> (r: u64)
    ensures
        (r as int) * (r as int) <= n as int,
        (n as int) < (r as int + 1) * (r as int + 1),
{
    let mut lo: u64 = 0;
    let mut hi: u64 = u64::MAX;
    proof {
        assert((u64::MAX as int + 1) * (u64::MAX as int + 1) > u128::MAX as int) by (nonlinear_arith);
    }
    while lo < hi
        invariant
            lo <= hi,
            (lo as int) * (lo as int) <= n as int,
            (n as int) < (hi as int + 1) * (hi as int + 1),
        decreases hi - lo,
    {
        let mid = lo + (hi - lo) / 2 + 1;
        proof {
            assert((mid as int) * (mid as int) <= (u64::MAX as int) * (u64::MAX as int))
                by (nonlinear_arith)
                requires
                    0 <= mid <= u64::MAX,
            ;
            assert((u64::MAX as int) * (u64::MAX as int) <= u128::MAX as int) by (nonlinear_arith);
        }
        let sq = (mid as u128) * (mid as u128);
        if sq <= n {
            lo = mid;
        } else {
            hi = mid - 1;
        }
    }
    lo
}

/// Fixed-point product, required to fit in `i64`.
pub fn fx_mul(a: i64, b: i64) -> (r: i64)
    requires
        i64::MIN <= fmul(a as int, b as int) <= i64::MAX,
    ensures
        r as int == fmul(a as int, b as int),
{
    proof {
        lemma_i64_product_in_i128(a as int, b as int);
    }
    let p = (a as i128) * (b as i128);
    let q = tdiv128(p, SCALE as i128);
    q as i64
}

/// The product of two `i64` values is well inside the `i128` range.
pub proof fn lemma_i64_product_in_i128(a: int, b: int)
    requires
        i64::MIN <= a <= i64::MAX,
        i64::MIN <= b <= i64::MAX,
    ensures
        i128::MIN < -(0x8000000000000000int * 0x8000000000000000int) <= a * b,
        a * b <= 0x8000000000000000int * 0x8000000000000000int < i128::MAX,
{
    lemma_abs_mul_bound(a, b, 0x8000000000000000int, 0x8000000000000000int);
    assert(0x8000000000000000int * 0x8000000000000000int < i128::MAX) by (nonlinear_arith);
}

/// Fixed-point product, saturated into the `i64` range.
pub fn fx_mul_sat(a: i64, b: i64) -> (r: i64)
    ensures
        r as int == sat64(fmul(a as int, b as int)),
{
    proof {
        lemma_i64_product_in_i128(a as int, b as int);
    }
    let p = (a as i128) * (b as i128);
    let q = tdiv128(p, SCALE as i128);
    sat_to_i64(q)
}

/// Fixed-point quotient, saturated into the `i64` range.
pub fn fx_div_sat(a: i64, b: i64) -> (r: i64)
    requires
        b != 0,
    ensures
        r as int == sat64(fdiv(a as int, b as int)),
{
    proof {
        lemma_i64_product_in_i128(a as int, SCALE as int);
    }
    let p = (a as i128) * (SCALE as i128);
    let q = sdiv128(p, b as i128);
    sat_to_i64(q)
}

/// Floor of the square root of a nonnegative fixed-point scalar.
pub fn fx_sqrt(x: i64) -> (r: i64)
    requires
        x >= 0,
    ensures
        r >= 0,
        (r as int) * (r as int) <= (x as int) * (SCALE as int),
        (x as int) * (SCALE as int) < (r as int + 1) * (r as int + 1),
        r as int == sqrt_floor((x as int) * (SCALE as int)),
{
    proof {
        assert((x as int) * (SCALE as int) <= (i64::MAX as int) * (SCALE as int)) by (nonlinear_arith)
            requires
                0 <= x <= i64::MAX,
        ;
        assert((i64::MAX as int) * (SCALE as int) < u128::MAX as int) by (nonlinear_arith);
    }
    let n = (x as u128) * (SCALE as u128);
    let s = isqrt128(n);
    proof {
        assert((i64::MAX as int) * (SCALE as int) < (1099511627776int) * (1099511627776int))
            by (nonlinear_arith);
        if s as int >= 1099511627776int {
            assert((1099511627776int) * (1099511627776int) <= (s as int) * (s as int))
                by (nonlinear_arith)
                requires
                    s as int >= 1099511627776int,
            ;
        }
        lemma_sqrt_floor_unique((x as int) * (SCALE as int), s as int);
    }
    s as i64
}

} // verus!
