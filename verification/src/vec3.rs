//! Three-component fixed-point vectors, used for points, directions and
//! colors alike.

use vstd::prelude::*;

use crate::fixed::{
    fdiv, fmul, fx_div_sat, fx_mul_sat, fx_sqrt, lemma_abs_mul_bound, lemma_fmul_units,
    lemma_tdiv_mono, sat64, sat_to_i64, sqrt_floor, tdiv, tdiv128, COORD_MAX, SCALE,
};
use crate::rng::rand_range;

verus! {

#[derive(Clone, Copy, PartialEq, Eq, Structural, Debug)]
pub struct Vec3 {
    pub x: i64,
    pub y: i64,
    pub z: i64,
}

pub type Point3 = Vec3;

/// All components within `b` in magnitude.
pub open spec fn vec_bounded(v: Vec3, b: int) -> bool {
    &&& -b <= v.x <= b
    &&& -b <= v.y <= b
    &&& -b <= v.z <= b
}

/// All components are small enough for the intersection arithmetic.
pub open spec fn in_range(v: Vec3) -> bool {
    vec_bounded(v, COORD_MAX as int)
}

pub open spec fn spec_add(v: Vec3, u: Vec3) -> Vec3 {
    Vec3 { x: sat64(v.x + u.x) as i64, y: sat64(v.y + u.y) as i64, z: sat64(v.z + u.z) as i64 }
}

pub open spec fn spec_sub(v: Vec3, u: Vec3) -> Vec3 {
    Vec3 { x: sat64(v.x - u.x) as i64, y: sat64(v.y - u.y) as i64, z: sat64(v.z - u.z) as i64 }
}

pub open spec fn spec_neg(v: Vec3) -> Vec3 {
    Vec3 { x: sat64(-v.x) as i64, y: sat64(-v.y) as i64, z: sat64(-v.z) as i64 }
}

/// Scale by a fixed-point factor, componentwise.
pub open spec fn spec_scale(v: Vec3, t: int) -> Vec3 {
    Vec3 {
        x: sat64(fmul(v.x as int, t)) as i64,
        y: sat64(fmul(v.y as int, t)) as i64,
        z: sat64(fmul(v.z as int, t)) as i64,
    }
}

/// Componentwise fixed-point product (used for color attenuation).
pub open spec fn spec_mul_vec(v: Vec3, u: Vec3) -> Vec3 {
    Vec3 {
        x: sat64(fmul(v.x as int, u.x as int)) as i64,
        y: sat64(fmul(v.y as int, u.y as int)) as i64,
        z: sat64(fmul(v.z as int, u.z as int)) as i64,
    }
}

pub open spec fn spec_div_scalar(v: Vec3, t: int) -> Vec3
    recommends
        t != 0,
{
    Vec3 {
        x: sat64(fdiv(v.x as int, t)) as i64,
        y: sat64(fdiv(v.y as int, t)) as i64,
        z: sat64(fdiv(v.z as int, t)) as i64,
    }
}

/// Dot product before scaling down; carries two fixed-point factors.
pub open spec fn spec_dot_raw(v: Vec3, u: Vec3) -> int {
    v.x * u.x + v.y * u.y + v.z * u.z
}

pub open spec fn spec_dot(v: Vec3, u: Vec3) -> int {
    tdiv(spec_dot_raw(v, u), SCALE as int)
}

pub open spec fn spec_cross(v: Vec3, u: Vec3) -> Vec3 {
    Vec3 {
        x: tdiv(v.y * u.z - v.z * u.y, SCALE as int) as i64,
        y: tdiv(v.z * u.x - v.x * u.z, SCALE as int) as i64,
        z: tdiv(v.x * u.y - v.y * u.x, SCALE as int) as i64,
    }
}

pub open spec fn spec_lenght_sqr(v: Vec3) -> int {
    tdiv(spec_dot_raw(v, v), SCALE as int)
}

pub open spec fn spec_lenght(v: Vec3) -> int {
    sqrt_floor(spec_lenght_sqr(v) * SCALE)
}

pub open spec fn spec_normalize(v: Vec3) -> Vec3 {
    if spec_lenght(v) == 0 {
        Vec3 { x: 0, y: 0, z: 0 }
    } else {
        spec_div_scalar(v, spec_lenght(v))
    }
}

/// Raw dot products of in-range vectors stay far inside `i128`.
pub proof fn lemma_dot_raw_bound(v: Vec3, u: Vec3, bound: int)
    requires
        0 <= bound,
        -bound <= v.x <= bound,
        -bound <= v.y <= bound,
        -bound <= v.z <= bound,
        -bound <= u.x <= bound,
        -bound <= u.y <= bound,
        -bound <= u.z <= bound,
    ensures
        -(3 * (bound * bound)) <= spec_dot_raw(v, u) <= 3 * (bound * bound),
        -(bound * bound) <= v.x * u.x <= bound * bound,
        -(bound * bound) <= v.y * u.y <= bound * bound,
        -(bound * bound) <= v.z * u.z <= bound * bound,
{
    lemma_abs_mul_bound(v.x as int, u.x as int, bound, bound);
    lemma_abs_mul_bound(v.y as int, u.y as int, bound, bound);
    lemma_abs_mul_bound(v.z as int, u.z as int, bound, bound);
    assert(spec_dot_raw(v, u) == v.x * u.x + v.y * u.y + v.z * u.z);
    assert(v.x * u.x + v.y * u.y + v.z * u.z <= 3 * (bound * bound));
    assert(-(3 * (bound * bound)) <= v.x * u.x + v.y * u.y + v.z * u.z);
}

/// As above, with a separate bound for each vector.
pub proof fn lemma_dot_raw_bound2(v: Vec3, u: Vec3, bv: int, bu: int)
    requires
        0 <= bv,
        0 <= bu,
        vec_bounded(v, bv),
        vec_bounded(u, bu),
    ensures
        -(3 * (bv * bu)) <= spec_dot_raw(v, u) <= 3 * (bv * bu),
        -(bv * bu) <= v.x * u.x <= bv * bu,
        -(bv * bu) <= v.y * u.y <= bv * bu,
        -(bv * bu) <= v.z * u.z <= bv * bu,
{
    lemma_abs_mul_bound(v.x as int, u.x as int, bv, bu);
    lemma_abs_mul_bound(v.y as int, u.y as int, bv, bu);
    lemma_abs_mul_bound(v.z as int, u.z as int, bv, bu);
    assert(spec_dot_raw(v, u) == v.x * u.x + v.y * u.y + v.z * u.z);
}

/// A dot product of a vector with itself is nonnegative.
pub proof fn lemma_dot_raw_self_nonneg(v: Vec3)
    ensures
        spec_dot_raw(v, v) >= 0,
        spec_lenght_sqr(v) >= 0,
{
    assert(v.x * v.x >= 0) by (nonlinear_arith);
    assert(v.y * v.y >= 0) by (nonlinear_arith);
    assert(v.z * v.z >= 0) by (nonlinear_arith);
    crate::fixed::lemma_tdiv_bounds(spec_dot_raw(v, v), SCALE as int);
}

impl Vec3 {
    pub fn new(x: i64, y: i64, z: i64) -> (r: Vec3)
        ensures
            r == (Vec3 { x, y, z }),
    {
        Vec3 { x, y, z }
    }

    pub fn zero() -> (r: Vec3)
        ensures
            r == (Vec3 { x: 0, y: 0, z: 0 }),
    {
        Vec3 { x: 0, y: 0, z: 0 }
    }

    pub fn add(&self, o: &Vec3) -> (r: Vec3)
        ensures
            r == spec_add(*self, *o),
    {
        Vec3 {
            x: sat_to_i64(self.x as i128 + o.x as i128),
            y: sat_to_i64(self.y as i128 + o.y as i128),
            z: sat_to_i64(self.z as i128 + o.z as i128),
        }
    }

    pub fn sub(&self, o: &Vec3) -> (r: Vec3)
        ensures
            r == spec_sub(*self, *o),
    {
        Vec3 {
            x: sat_to_i64(self.x as i128 - o.x as i128),
            y: sat_to_i64(self.y as i128 - o.y as i128),
            z: sat_to_i64(self.z as i128 - o.z as i128),
        }
    }

    pub fn neg(&self) -> (r: Vec3)
        ensures
            r == spec_neg(*self),
    {
        Vec3 {
            x: sat_to_i64(-(self.x as i128)),
            y: sat_to_i64(-(self.y as i128)),
            z: sat_to_i64(-(self.z as i128)),
        }
    }

    pub fn scale(&self, t: i64) -> (r: Vec3)
        ensures
            r == spec_scale(*self, t as int),
    {
        Vec3 { x: fx_mul_sat(self.x, t), y: fx_mul_sat(self.y, t), z: fx_mul_sat(self.z, t) }
    }

    pub fn mul_vec(&self, o: &Vec3) -> (r: Vec3)
        ensures
            r == spec_mul_vec(*self, *o),
    {
        Vec3 {
            x: fx_mul_sat(self.x, o.x),
            y: fx_mul_sat(self.y, o.y),
            z: fx_mul_sat(self.z, o.z),
        }
    }

    pub fn div_scalar(&self, t: i64) -> (r: Vec3)
        requires
            t != 0,
        ensures
            r == spec_div_scalar(*self, t as int),
    {
        Vec3 { x: fx_div_sat(self.x, t), y: fx_div_sat(self.y, t), z: fx_div_sat(self.z, t) }
    }

    /// The component along axis `n` (`0` is x, `1` is y, `2` is z); any
    /// other index is a caller defect.
    pub fn axis(&self, n: i32) -> (r: i64)
        requires
            0 <= n <= 2,
        ensures
            r == spec_axis(*self, n as int),
    {
        match n {
            0 => self.x,
            1 => self.y,
            _ => self.z,
        }
    }

    pub fn lenght_sqr(&self) -> (r: i64)
        requires
            in_range(*self),
        ensures
            r as int == spec_lenght_sqr(*self),
            r >= 0,
    {
        proof {
            lemma_dot_raw_bound(*self, *self, COORD_MAX as int);
            lemma_dot_raw_self_nonneg(*self);
            lemma_tdiv_mono(
                spec_dot_raw(*self, *self),
                3 * ((COORD_MAX as int) * (COORD_MAX as int)),
                SCALE as int,
            );
        }
        let raw: i128 = (self.x as i128) * (self.x as i128) + (self.y as i128) * (self.y as i128)
            + (self.z as i128) * (self.z as i128);
        let q = tdiv128(raw, SCALE as i128);
        q as i64
    }

    pub fn lenght(&self) -> (r: i64)
        requires
            in_range(*self),
        ensures
            r as int == spec_lenght(*self),
            r >= 0,
    {
        let sq = self.lenght_sqr();
        fx_sqrt(sq)
    }

    /// True when every component is below one fixed-point unit in magnitude,
    /// that is, exactly zero at this resolution.
    pub fn near_zero(&self) -> (r: bool)
        ensures
            r == (self.x == 0 && self.y == 0 && self.z == 0),
    {
        self.x == 0 && self.y == 0 && self.z == 0
    }

    /// A vector with each component drawn uniformly from `[0, 1)`.
    pub fn random() -> (r: Vec3)
        ensures
            0 <= r.x < SCALE,
            0 <= r.y < SCALE,
            0 <= r.z < SCALE,
    {
        Vec3 {
            x: rand_range(0, SCALE),
            y: rand_range(0, SCALE),
            z: rand_range(0, SCALE),
        }
    }

    /// A uniform point of the box `[min, max)` in each component: each is
    /// `min + t * (max - min)` for an independent uniform draw `t` from
    /// `[0, 1)`.
    pub fn random_range(min: i64, max: i64) -> (r: Vec3)
        requires
            -COORD_MAX <= min <= COORD_MAX,
            -COORD_MAX <= max <= COORD_MAX,
        ensures
            exists|t: int| 0 <= t < SCALE && r.x == sat64(min + #[trigger] fmul(t, max - min)),
            exists|t: int| 0 <= t < SCALE && r.y == sat64(min + #[trigger] fmul(t, max - min)),
            exists|t: int| 0 <= t < SCALE && r.z == sat64(min + #[trigger] fmul(t, max - min)),
    {
        let diff = max - min;
        let tx = rand_range(0, SCALE);
        let ty = rand_range(0, SCALE);
        let tz = rand_range(0, SCALE);
        let r = Vec3 {
            x: sat_to_i64(min as i128 + (fx_mul_sat(tx, diff) as i128)),
            y: sat_to_i64(min as i128 + (fx_mul_sat(ty, diff) as i128)),
            z: sat_to_i64(min as i128 + (fx_mul_sat(tz, diff) as i128)),
        };
        proof {
            lemma_fmul_range_small(tx as int, diff as int);
            lemma_fmul_range_small(ty as int, diff as int);
            lemma_fmul_range_small(tz as int, diff as int);
        }
        r
    }
}

impl Vec3 {
    /// A point on (approximately) the unit sphere, drawn from a uniform
    /// angle pair.
    pub fn random_unit_sphere() -> (r: Vec3)
        ensures
            unit_range(r, 1),
    {
        let theta = rand_range(0, crate::trig::TAU_FX);
        let phi = crate::trig::acos_fx(rand_range(-SCALE, SCALE));
        let sp = crate::trig::sin_fx(phi);
        let cp = crate::trig::cos_fx(phi);
        let st = crate::trig::sin_fx(theta);
        let ct = crate::trig::cos_fx(theta);
        proof {
            lemma_fmul_units(sp as int, ct as int, 1, 1);
            lemma_fmul_units(sp as int, st as int, 1, 1);
        }
        Vec3 { x: crate::fixed::fx_mul(sp, ct), y: crate::fixed::fx_mul(sp, st), z: cp }
    }

    /// A unit-sphere point flipped onto the side of the given normal.
    pub fn random_on_hemisphere(normal: &Vec3) -> (r: Vec3)
        requires
            in_range(*normal),
        ensures
            unit_range(r, 1),
            spec_dot(r, *normal) >= 0,
    {
        let res = Vec3::random_unit_sphere();
        let d = dot(&res, normal);
        if d > 0 {
            res
        } else {
            proof {
                lemma_dot_neg(res, *normal);
            }
            res.neg()
        }
    }

    /// A point strictly inside the unit disk in the `z == 0` plane.
    /// Rejection sampling with a bounded number of draws; falls back to
    /// the center.
    pub fn random_unit_in_disk() -> (r: Vec3)
        ensures
            unit_range(r, 1),
            spec_lenght_sqr(r) < SCALE,
            r.z == 0,
    {
        let mut tries: u32 = 0;
        while tries < 64
            invariant
                tries <= 64,
            decreases 64 - tries,
        {
            let p = Vec3 { x: rand_range(-SCALE, SCALE), y: rand_range(-SCALE, SCALE), z: 0 };
            if p.lenght_sqr() < SCALE {
                return p;
            }
            tries = tries + 1;
        }
        let z = Vec3::zero();
        proof {
            crate::fixed::lemma_tdiv_bounds(spec_dot_raw(z, z), SCALE as int);
        }
        z
    }
}

/// Componentwise bound of a cross product from bounds on its factors.
pub proof fn lemma_cross_bound(a: Vec3, b: Vec3, ba: int, bb: int)
    requires
        0 <= ba,
        0 <= bb,
        tdiv(2 * (ba * bb), SCALE as int) <= i64::MAX,
        vec_bounded(a, ba),
        vec_bounded(b, bb),
    ensures
        vec_bounded(spec_cross(a, b), tdiv(2 * (ba * bb), SCALE as int)),
{
    lemma_abs_mul_bound(a.y as int, b.z as int, ba, bb);
    lemma_abs_mul_bound(a.z as int, b.y as int, ba, bb);
    lemma_abs_mul_bound(a.z as int, b.x as int, ba, bb);
    lemma_abs_mul_bound(a.x as int, b.z as int, ba, bb);
    lemma_abs_mul_bound(a.x as int, b.y as int, ba, bb);
    lemma_abs_mul_bound(a.y as int, b.x as int, ba, bb);
    lemma_tdiv_mono(a.y * b.z - a.z * b.y, 2 * (ba * bb), SCALE as int);
    lemma_tdiv_mono(-(2 * (ba * bb)), a.y * b.z - a.z * b.y, SCALE as int);
    lemma_tdiv_mono(a.z * b.x - a.x * b.z, 2 * (ba * bb), SCALE as int);
    lemma_tdiv_mono(-(2 * (ba * bb)), a.z * b.x - a.x * b.z, SCALE as int);
    lemma_tdiv_mono(a.x * b.y - a.y * b.x, 2 * (ba * bb), SCALE as int);
    lemma_tdiv_mono(-(2 * (ba * bb)), a.x * b.y - a.y * b.x, SCALE as int);
    assert(tdiv(-(2 * (ba * bb)), SCALE as int) == -tdiv(2 * (ba * bb), SCALE as int));
}

/// Negating one argument negates the dot product.
pub proof fn lemma_dot_neg(v: Vec3, u: Vec3)
    requires
        unit_range(v, 1),
        in_range(u),
    ensures
        spec_dot(spec_neg(v), u) == -spec_dot(v, u),
{
    assert(spec_neg(v).x == -v.x && spec_neg(v).y == -v.y && spec_neg(v).z == -v.z);
    assert((-v.x) * u.x == -(v.x * u.x)) by (nonlinear_arith);
    assert((-v.y) * u.y == -(v.y * u.y)) by (nonlinear_arith);
    assert((-v.z) * u.z == -(v.z * u.z)) by (nonlinear_arith);
    assert(spec_dot_raw(spec_neg(v), u) == -spec_dot_raw(v, u));
}

/// Normalizing an in-range vector yields components within two units.
pub proof fn lemma_normalize_unit(v: Vec3)
    requires
        in_range(v),
    ensures
        unit_range(spec_normalize(v), 2),
{
    lemma_dot_raw_self_nonneg(v);
    let lsq = spec_lenght_sqr(v);
    crate::fixed::lemma_sqrt_floor_props(lsq * SCALE);
    let l = spec_lenght(v);
    if l == 0 {
    } else {
        assert(lsq * SCALE >= 0) by (nonlinear_arith)
            requires
                lsq >= 0,
        ;
        if lsq == 0 {
            assert(l * l <= 0);
            assert(l == 0) by (nonlinear_arith)
                requires
                    l >= 0,
                    l * l <= 0,
            ;
        }
        assert(lsq >= 1);
        assert(lsq * SCALE >= SCALE) by (nonlinear_arith)
            requires
                lsq >= 1,
        ;
        assert((l + 1) * (l + 1) > SCALE);
        assert(l + 1 >= 256) by (nonlinear_arith)
            requires
                (l + 1) * (l + 1) > 65536,
                l >= 0,
        ;
        assert(v.x * v.x >= 0) by (nonlinear_arith);
        assert(v.y * v.y >= 0) by (nonlinear_arith);
        assert(v.z * v.z >= 0) by (nonlinear_arith);
        assert(spec_dot_raw(v, v) == v.x * v.x + v.y * v.y + v.z * v.z);
        lemma_normalize_comp(v.x as int, v, l, lsq);
        lemma_normalize_comp(v.y as int, v, l, lsq);
        lemma_normalize_comp(v.z as int, v, l, lsq);
    }
}

/// One component of a normalized vector is within two units.
proof fn lemma_normalize_comp(x: int, v: Vec3, l: int, lsq: int)
    requires
        lsq == spec_lenght_sqr(v),
        l == spec_lenght(v),
        l >= 255,
        lsq >= 1,
        x * x <= spec_dot_raw(v, v),
        l * l <= lsq * SCALE < (l + 1) * (l + 1),
    ensures
        -(2 * SCALE) <= sat64(fdiv(x, l)) <= 2 * SCALE,
{
    // raw < (lsq + 1) * SCALE  (truncating division)
    crate::fixed::lemma_trunc_rem_range(spec_dot_raw(v, v), SCALE as int);
    lemma_dot_raw_self_nonneg(v);
    assert(spec_dot_raw(v, v) < (lsq + 1) * SCALE) by (nonlinear_arith)
        requires
            lsq == crate::fixed::tdiv(spec_dot_raw(v, v), SCALE as int),
            spec_dot_raw(v, v) >= 0,
            0 <= spec_dot_raw(v, v) - lsq * SCALE < SCALE,
    ;
    assert((lsq + 1) * SCALE == lsq * SCALE + SCALE);
    assert(x * x < (l + 1) * (l + 1) + SCALE);
    assert(SCALE <= (l + 1) * (l + 1)) by (nonlinear_arith)
        requires
            l + 1 >= 256,
    ;
    assert(x * x < 2 * ((l + 1) * (l + 1)));
    assert(2 * ((l + 1) * (l + 1)) <= (2 * l) * (2 * l)) by (nonlinear_arith)
        requires
            l >= 3,
    ;
    assert(-(2 * l) < x < 2 * l) by (nonlinear_arith)
        requires
            x * x < (2 * l) * (2 * l),
            l > 0,
    ;
    assert(x * SCALE <= (2 * l - 1) * SCALE && -((2 * l - 1) * SCALE) <= x * SCALE)
        by (nonlinear_arith)
        requires
            -(2 * l - 1) <= x <= 2 * l - 1,
            SCALE > 0,
    ;
    assert((2 * l - 1) * SCALE <= (2 * SCALE) * l - 1) by (nonlinear_arith)
        requires
            l >= 1,
    ;
    crate::fixed::lemma_tdiv_mono(x * SCALE, (2 * SCALE) * l, l);
    crate::fixed::lemma_tdiv_mono(-((2 * SCALE) * l), x * SCALE, l);
    crate::fixed::lemma_tdiv_exact(2 * SCALE, l);
}

pub open spec fn spec_axis(v: Vec3, n: int) -> int {
    if n == 0 {
        v.x as int
    } else if n == 1 {
        v.y as int
    } else {
        v.z as int
    }
}

/// A product with one factor below `SCALE` and the other within twice the
/// coordinate range stays in the `i64` range, so the saturation above is
/// the identity.
proof fn lemma_fmul_range_small(t: int, m: int)
    requires
        0 <= t < SCALE,
        -0x20000000 <= m <= 0x20000000,
    ensures
        sat64(fmul(t, m)) == fmul(t, m),
        -0x20000000 <= fmul(t, m) <= 0x20000000,
{
    crate::fixed::lemma_fmul_bound(t, m, SCALE as int, 0x20000000);
    crate::fixed::lemma_tdiv_exact(0x20000000, SCALE as int);
    assert((SCALE as int) * 0x20000000 == 0x20000000 * (SCALE as int)) by (nonlinear_arith);
}

pub fn dot(v: &Vec3, u: &Vec3) -> (r: i64)
    requires
        in_range(*v),
        in_range(*u),
    ensures
        r as int == spec_dot(*v, *u),
{
    proof {
        lemma_dot_raw_bound(*v, *u, COORD_MAX as int);
        lemma_tdiv_mono(spec_dot_raw(*v, *u), 3 * ((COORD_MAX as int) * (COORD_MAX as int)), SCALE as int);
        lemma_tdiv_mono(-(3 * ((COORD_MAX as int) * (COORD_MAX as int))), spec_dot_raw(*v, *u), SCALE as int);
    }
    let raw: i128 = (v.x as i128) * (u.x as i128) + (v.y as i128) * (u.y as i128)
        + (v.z as i128) * (u.z as i128);
    let q = tdiv128(raw, SCALE as i128);
    q as i64
}

pub fn cross(v: &Vec3, u: &Vec3) -> (r: Vec3)
    requires
        in_range(*v),
        in_range(*u),
    ensures
        r == spec_cross(*v, *u),
{
    proof {
        lemma_cross_terms(*v, *u);
    }
    let x = tdiv128(
        (v.y as i128) * (u.z as i128) - (v.z as i128) * (u.y as i128),
        SCALE as i128,
    );
    let y = tdiv128(
        (v.z as i128) * (u.x as i128) - (v.x as i128) * (u.z as i128),
        SCALE as i128,
    );
    let z = tdiv128(
        (v.x as i128) * (u.y as i128) - (v.y as i128) * (u.x as i128),
        SCALE as i128,
    );
    Vec3 { x: x as i64, y: y as i64, z: z as i64 }
}

/// The cross-product terms of in-range vectors fit comfortably in `i64`
/// after scaling down.
proof fn lemma_cross_terms(v: Vec3, u: Vec3)
    requires
        in_range(v),
        in_range(u),
    ensures
        -i64::MAX <= tdiv(v.y * u.z - v.z * u.y, SCALE as int) <= i64::MAX,
        -i64::MAX <= tdiv(v.z * u.x - v.x * u.z, SCALE as int) <= i64::MAX,
        -i64::MAX <= tdiv(v.x * u.y - v.y * u.x, SCALE as int) <= i64::MAX,
        -(COORD_MAX * COORD_MAX) <= v.y * u.z <= COORD_MAX * COORD_MAX,
        -(COORD_MAX * COORD_MAX) <= v.z * u.y <= COORD_MAX * COORD_MAX,
        -(COORD_MAX * COORD_MAX) <= v.z * u.x <= COORD_MAX * COORD_MAX,
        -(COORD_MAX * COORD_MAX) <= v.x * u.z <= COORD_MAX * COORD_MAX,
        -(COORD_MAX * COORD_MAX) <= v.x * u.y <= COORD_MAX * COORD_MAX,
        -(COORD_MAX * COORD_MAX) <= v.y * u.x <= COORD_MAX * COORD_MAX,
{
    let c = COORD_MAX as int;
    lemma_abs_mul_bound(v.y as int, u.z as int, c, c);
    lemma_abs_mul_bound(v.z as int, u.y as int, c, c);
    lemma_abs_mul_bound(v.z as int, u.x as int, c, c);
    lemma_abs_mul_bound(v.x as int, u.z as int, c, c);
    lemma_abs_mul_bound(v.x as int, u.y as int, c, c);
    lemma_abs_mul_bound(v.y as int, u.x as int, c, c);
    lemma_tdiv_mono(v.y * u.z - v.z * u.y, 2 * (c * c), SCALE as int);
    lemma_tdiv_mono(-(2 * (c * c)), v.y * u.z - v.z * u.y, SCALE as int);
    lemma_tdiv_mono(v.z * u.x - v.x * u.z, 2 * (c * c), SCALE as int);
    lemma_tdiv_mono(-(2 * (c * c)), v.z * u.x - v.x * u.z, SCALE as int);
    lemma_tdiv_mono(v.x * u.y - v.y * u.x, 2 * (c * c), SCALE as int);
    lemma_tdiv_mono(-(2 * (c * c)), v.x * u.y - v.y * u.x, SCALE as int);
}

pub fn normalize(v: &Vec3) -> (r: Vec3)
    requires
        in_range(*v),
    ensures
        r == spec_normalize(*v),
{
    let l = v.lenght();
    if l == 0 {
        Vec3::zero()
    } else {
        v.div_scalar(l)
    }
}

/// The mirror image of `v` about the plane with normal `n`.
pub open spec fn spec_reflect(v: Vec3, n: Vec3) -> Vec3 {
    spec_sub(v, spec_scale(n, sat64(fmul(spec_dot(v, n), 2 * SCALE))))
}

pub fn reflect(v: &Vec3, n: &Vec3) -> (r: Vec3)
    requires
        in_range(*v),
        in_range(*n),
    ensures
        r == spec_reflect(*v, *n),
{
    let d = dot(v, n);
    let k = fx_mul_sat(d, 2 * SCALE);
    v.sub(&n.scale(k))
}

/// All components within `k` units of 1.0; unit directions satisfy this
/// with `k == 2`.
pub open spec fn unit_range(v: Vec3, k: int) -> bool {
    &&& -(k * SCALE) <= v.x <= k * SCALE
    &&& -(k * SCALE) <= v.y <= k * SCALE
    &&& -(k * SCALE) <= v.z <= k * SCALE
}

/// The dot product of vectors bounded by `kv` and `ku` units is bounded by
/// `3 * kv * ku` units.
pub proof fn lemma_dot_units(v: Vec3, u: Vec3, kv: int, ku: int)
    requires
        0 <= kv,
        0 <= ku,
        kv * ku <= 0x100000000,
        unit_range(v, kv),
        unit_range(u, ku),
    ensures
        -(3 * (kv * ku) * SCALE) <= spec_dot(v, u) <= 3 * (kv * ku) * SCALE,
{
    let s = SCALE as int;
    assert(-(kv * ku * s * s) <= v.x * u.x <= kv * ku * s * s) by (nonlinear_arith)
        requires
            0 <= kv,
            0 <= ku,
            -(kv * s) <= v.x <= kv * s,
            -(ku * s) <= u.x <= ku * s,
    ;
    assert(-(kv * ku * s * s) <= v.y * u.y <= kv * ku * s * s) by (nonlinear_arith)
        requires
            0 <= kv,
            0 <= ku,
            -(kv * s) <= v.y <= kv * s,
            -(ku * s) <= u.y <= ku * s,
    ;
    assert(-(kv * ku * s * s) <= v.z * u.z <= kv * ku * s * s) by (nonlinear_arith)
        requires
            0 <= kv,
            0 <= ku,
            -(kv * s) <= v.z <= kv * s,
            -(ku * s) <= u.z <= ku * s,
    ;
    assert(3 * (kv * ku * s * s) == (3 * (kv * ku) * s) * s) by (nonlinear_arith);
    lemma_tdiv_mono(spec_dot_raw(v, u), (3 * (kv * ku) * s) * s, s);
    lemma_tdiv_mono(-((3 * (kv * ku) * s) * s), spec_dot_raw(v, u), s);
    crate::fixed::lemma_tdiv_exact(3 * (kv * ku), s);
}

/// Snell refraction of the unit direction `uv` at a surface with unit
/// normal `n` and refraction ratio `eta` (all fixed-point).
pub open spec fn spec_refract(uv: Vec3, n: Vec3, eta: int) -> Vec3 {
    let cos_theta = spec_refract_cos(uv, n);
    let out_perp = spec_scale(spec_add(uv, spec_scale(n, cos_theta)), eta);
    let par_sq = sat64(SCALE - spec_lenght_sqr(out_perp));
    let par_len = sqrt_floor((if par_sq >= 0 { par_sq } else { -par_sq }) * SCALE);
    spec_add(out_perp, spec_scale(n, -par_len))
}

pub open spec fn spec_refract_cos(uv: Vec3, n: Vec3) -> int {
    let d = spec_dot(spec_neg(uv), n);
    if d <= SCALE {
        d
    } else {
        SCALE as int
    }
}

pub fn refract(uv: &Vec3, n: &Vec3, etai_over_etat: i64) -> (r: Vec3)
    requires
        unit_range(*uv, 2),
        unit_range(*n, 2),
        0 <= etai_over_etat <= 4 * SCALE,
    ensures
        r == spec_refract(*uv, *n, etai_over_etat as int),
{
    let s = SCALE;
    let neg_uv = uv.neg();
    proof {
        assert(spec_neg(*uv).x == -uv.x && spec_neg(*uv).y == -uv.y && spec_neg(*uv).z == -uv.z);
        assert(in_range(spec_neg(*uv)));
        lemma_dot_units(spec_neg(*uv), *n, 2, 2);
    }
    let mut cos_theta = dot(&neg_uv, n);
    if cos_theta > s {
        cos_theta = s;
    }
    proof {
        let ct = spec_refract_cos(*uv, *n);
        lemma_fmul_units(n.x as int, ct, 2, 12);
        lemma_fmul_units(n.y as int, ct, 2, 12);
        lemma_fmul_units(n.z as int, ct, 2, 12);
        let inner = spec_add(*uv, spec_scale(*n, ct));
        assert(unit_range(inner, 26));
        lemma_fmul_units(inner.x as int, etai_over_etat as int, 26, 4);
        lemma_fmul_units(inner.y as int, etai_over_etat as int, 26, 4);
        lemma_fmul_units(inner.z as int, etai_over_etat as int, 26, 4);
    }
    let out_perp = uv.add(&n.scale(cos_theta)).scale(etai_over_etat);
    proof {
        assert(unit_range(spec_scale(spec_add(*uv, spec_scale(*n, spec_refract_cos(*uv, *n))), etai_over_etat as int), 104));
        assert(104 * SCALE <= COORD_MAX);
        assert(in_range(out_perp));
    }
    let lsq = out_perp.lenght_sqr();
    let par_sq = sat_to_i64(s as i128 - lsq as i128);
    let par_abs = if par_sq >= 0 { par_sq } else { -par_sq };
    let par_len = fx_sqrt(par_abs);
    out_perp.add(&n.scale(-par_len))
}

} // verus!
