//! Perlin gradient noise over fixed-point points.
//!
//! The permutation tables are drawn once through the trusted shuffle; all
//! queries are verified exactly against the tables that resulted.

use vstd::prelude::*;

use crate::fixed::{
    floor_div_rem, fmul, fmul_sat, fx_mul_sat, lemma_tdiv_exact, sat64, sat_to_i64, SCALE,
};
use crate::rng::shuffle_bytes;
use crate::vec3::{dot, spec_dot, spec_scale, unit_range, Point3, Vec3};

verus! {

/// Entries in each permutation table and in the gradient table.
pub const POINT_COUNT: usize = 256;

pub struct Perlin {
    pub ran_vec: Vec<Vec3>,
    pub perm_x: Vec<u8>,
    pub perm_y: Vec<u8>,
    pub perm_z: Vec<u8>,
}

pub open spec fn perlin_wf(p: Perlin) -> bool {
    &&& p.ran_vec@.len() == 256
    &&& p.perm_x@.len() == 256
    &&& p.perm_y@.len() == 256
    &&& p.perm_z@.len() == 256
    &&& forall|k: int| 0 <= k < 256 ==> unit_range(#[trigger] p.ran_vec@[k], 1)
}

/// Wrap a lattice coordinate into the table range.
pub open spec fn spec_mask(n: int) -> int {
    n % 256
}

/// The gradient vector of lattice corner `(a, b, c)`.
pub open spec fn spec_corner(p: Perlin, a: int, b: int, c: int) -> Vec3 {
    let hx = p.perm_x@[spec_mask(a)];
    let hy = p.perm_y@[spec_mask(b)];
    let hz = p.perm_z@[spec_mask(c)];
    p.ran_vec@[(hx ^ hy ^ hz) as int]
}

/// Hermite fade of a fractional coordinate.
pub open spec fn spec_fade(t: int) -> int {
    fmul_sat(fmul_sat(t, t), 3 * SCALE - 2 * t)
}

/// The interpolation weight along one axis: the faded value toward the
/// far corner, its complement toward the near one.
pub open spec fn spec_weight(sel: int, faded: int) -> int {
    if sel == 0 {
        SCALE - faded
    } else {
        faded
    }
}

/// One corner's contribution to the trilinear gradient interpolation.
pub open spec fn spec_interp_term(
    c: Vec3,
    di: int,
    dj: int,
    dk: int,
    u: int,
    v: int,
    w: int,
    uu: int,
    vv: int,
    ww: int,
) -> int {
    let wv = Vec3 {
        x: (u - di * SCALE) as i64,
        y: (v - dj * SCALE) as i64,
        z: (w - dk * SCALE) as i64,
    };
    fmul_sat(
        fmul_sat(fmul_sat(spec_weight(di, uu), spec_weight(dj, vv)), spec_weight(dk, ww)),
        spec_dot(c, wv),
    )
}

/// The noise value at point `pt`: fade the fractional coordinates and
/// blend the eight corner gradients.
pub open spec fn spec_noise(p: Perlin, pt: Vec3) -> int {
    let i = pt.x as int / SCALE as int;
    let j = pt.y as int / SCALE as int;
    let k = pt.z as int / SCALE as int;
    let u = pt.x as int % SCALE as int;
    let v = pt.y as int % SCALE as int;
    let w = pt.z as int % SCALE as int;
    let uu = spec_fade(u);
    let vv = spec_fade(v);
    let ww = spec_fade(w);
    let t000 = spec_interp_term(spec_corner(p, i, j, k), 0, 0, 0, u, v, w, uu, vv, ww);
    let t001 = spec_interp_term(spec_corner(p, i, j, k + 1), 0, 0, 1, u, v, w, uu, vv, ww);
    let t010 = spec_interp_term(spec_corner(p, i, j + 1, k), 0, 1, 0, u, v, w, uu, vv, ww);
    let t011 = spec_interp_term(spec_corner(p, i, j + 1, k + 1), 0, 1, 1, u, v, w, uu, vv, ww);
    let t100 = spec_interp_term(spec_corner(p, i + 1, j, k), 1, 0, 0, u, v, w, uu, vv, ww);
    let t101 = spec_interp_term(spec_corner(p, i + 1, j, k + 1), 1, 0, 1, u, v, w, uu, vv, ww);
    let t110 = spec_interp_term(spec_corner(p, i + 1, j + 1, k), 1, 1, 0, u, v, w, uu, vv, ww);
    let t111 = spec_interp_term(spec_corner(p, i + 1, j + 1, k + 1), 1, 1, 1, u, v, w, uu, vv, ww);
    sat64(
        sat64(
            sat64(
                sat64(sat64(sat64(sat64(t000 + t001) + t010) + t011) + t100) + t101,
            ) + t110,
        ) + t111,
    )
}

/// One octave of turbulence and the remaining tail.
pub open spec fn spec_turb(p: Perlin, pt: Vec3, weight: int, depth: int) -> int
    decreases depth,
{
    if depth <= 0 {
        0
    } else {
        sat64(
            fmul_sat(weight, spec_noise(p, pt)) + spec_turb(
                p,
                spec_scale(pt, 2 * SCALE),
                weight / 2,
                depth - 1,
            ),
        )
    }
}

/// Turbulence: the absolute value of the octave sum at unit weight.
pub open spec fn spec_turb_abs(p: Perlin, pt: Vec3, depth: int) -> int {
    let t = spec_turb(p, pt, SCALE as int, depth);
    if t >= 0 {
        t
    } else {
        sat64(-t)
    }
}

impl Perlin {
    /// Fresh tables: one gradient per corner and one shuffled permutation
    /// per axis.
    pub fn default() -> (p: Perlin)
        ensures
            perlin_wf(p),
    {
        let mut ran_vec: Vec<Vec3> = Vec::new();
        let mut i: usize = 0;
        while i < POINT_COUNT
            invariant
                ran_vec@.len() == i,
                i <= 256,
                forall|k: int| 0 <= k < i ==> unit_range(#[trigger] ran_vec@[k], 1),
            decreases 256 - i,
        {
            let v = Vec3::random_range(-SCALE, SCALE);
            proof {
                lemma_random_range_unit(v, -SCALE as int, SCALE as int);
            }
            ran_vec.push(v);
            i = i + 1;
        }
        Perlin {
            ran_vec,
            perm_x: Perlin::perlin_generate_perm(),
            perm_y: Perlin::perlin_generate_perm(),
            perm_z: Perlin::perlin_generate_perm(),
        }
    }

    /// A shuffled table of the 256 byte values.
    fn perlin_generate_perm() -> (r: Vec<u8>)
        ensures
            r@.len() == 256,
    {
        let mut v: Vec<u8> = Vec::new();
        let mut i: usize = 0;
        while i < POINT_COUNT
            invariant
                v@.len() == i,
                i <= 256,
            decreases 256 - i,
        {
            v.push(i as u8);
            i = i + 1;
        }
        shuffle_bytes(&mut v);
        v
    }

    /// The gradient at lattice corner `(a, b, c)`.
    fn corner(&self, a: i64, b: i64, c: i64) -> (r: Vec3)
        requires
            perlin_wf(*self),
        ensures
            r == spec_corner(*self, a as int, b as int, c as int),
            unit_range(r, 1),
    {
        let (_, ma) = floor_div_rem(a, 256);
        let (_, mb) = floor_div_rem(b, 256);
        let (_, mc) = floor_div_rem(c, 256);
        let hx = self.perm_x[ma as usize];
        let hy = self.perm_y[mb as usize];
        let hz = self.perm_z[mc as usize];
        let idx = (hx ^ hy ^ hz) as usize;
        self.ran_vec[idx]
    }

    pub fn noise(&self, p: &Point3) -> (r: i64)
        requires
            perlin_wf(*self),
        ensures
            r as int == spec_noise(*self, *p),
    {
        let (i, u) = floor_div_rem(p.x, SCALE);
        let (j, v) = floor_div_rem(p.y, SCALE);
        let (k, w) = floor_div_rem(p.z, SCALE);
        let uu = fade(u);
        let vv = fade(v);
        let ww = fade(w);
        let t000 = self.interp_term(i, j, k, 0, 0, 0, u, v, w, uu, vv, ww);
        let t001 = self.interp_term(i, j, k + 1, 0, 0, 1, u, v, w, uu, vv, ww);
        let t010 = self.interp_term(i, j + 1, k, 0, 1, 0, u, v, w, uu, vv, ww);
        let t011 = self.interp_term(i, j + 1, k + 1, 0, 1, 1, u, v, w, uu, vv, ww);
        let t100 = self.interp_term(i + 1, j, k, 1, 0, 0, u, v, w, uu, vv, ww);
        let t101 = self.interp_term(i + 1, j, k + 1, 1, 0, 1, u, v, w, uu, vv, ww);
        let t110 = self.interp_term(i + 1, j + 1, k, 1, 1, 0, u, v, w, uu, vv, ww);
        let t111 = self.interp_term(i + 1, j + 1, k + 1, 1, 1, 1, u, v, w, uu, vv, ww);
        let mut acc = sat_to_i64(t000 as i128 + t001 as i128);
        acc = sat_to_i64(acc as i128 + t010 as i128);
        acc = sat_to_i64(acc as i128 + t011 as i128);
        acc = sat_to_i64(acc as i128 + t100 as i128);
        acc = sat_to_i64(acc as i128 + t101 as i128);
        acc = sat_to_i64(acc as i128 + t110 as i128);
        acc = sat_to_i64(acc as i128 + t111 as i128);
        acc
    }

    /// One corner's contribution, looked up and weighted.
    fn interp_term(
        &self,
        a: i64,
        b: i64,
        c: i64,
        di: i64,
        dj: i64,
        dk: i64,
        u: i64,
        v: i64,
        w: i64,
        uu: i64,
        vv: i64,
        ww: i64,
    ) -> (r: i64)
        requires
            perlin_wf(*self),
            di == 0 || di == 1,
            dj == 0 || dj == 1,
            dk == 0 || dk == 1,
            0 <= u < SCALE,
            0 <= v < SCALE,
            0 <= w < SCALE,
            0 <= uu <= 3 * SCALE,
            0 <= vv <= 3 * SCALE,
            0 <= ww <= 3 * SCALE,
        ensures
            r as int == spec_interp_term(
                spec_corner(*self, a as int, b as int, c as int),
                di as int,
                dj as int,
                dk as int,
                u as int,
                v as int,
                w as int,
                uu as int,
                vv as int,
                ww as int,
            ),
    {
        let cv = self.corner(a, b, c);
        let wv = Vec3 { x: u - di * SCALE, y: v - dj * SCALE, z: w - dk * SCALE };
        let wi = if di == 0 {
            SCALE - uu
        } else {
            uu
        };
        let wj = if dj == 0 {
            SCALE - vv
        } else {
            vv
        };
        let wk = if dk == 0 {
            SCALE - ww
        } else {
            ww
        };
        let d = dot(&cv, &wv);
        fx_mul_sat(fx_mul_sat(fx_mul_sat(wi, wj), wk), d)
    }

    pub fn turb(&self, p: Point3, depth: i32) -> (r: i64)
        requires
            perlin_wf(*self),
        ensures
            r as int == spec_turb_abs(*self, p, depth as int),
    {
        let t = self.turb_rec(p, SCALE, depth);
        if t >= 0 {
            t
        } else {
            sat_to_i64(-(t as i128))
        }
    }

    fn turb_rec(&self, p: Point3, weight: i64, depth: i32) -> (r: i64)
        requires
            perlin_wf(*self),
            weight >= 0,
        ensures
            r as int == spec_turb(*self, p, weight as int, depth as int),
        decreases depth,
    {
        if depth <= 0 {
            0
        } else {
            let n = self.noise(&p);
            let acc = fx_mul_sat(weight, n);
            let w2 = ((weight as u64) / 2) as i64;
            let rest = self.turb_rec(p.scale(2 * SCALE), w2, depth - 1);
            sat_to_i64(acc as i128 + rest as i128)
        }
    }
}

/// The hermite fade used on each fractional coordinate.
fn fade(t: i64) -> (r: i64)
    requires
        0 <= t < SCALE,
    ensures
        r as int == spec_fade(t as int),
        0 <= r <= 3 * SCALE,
{
    proof {
        crate::fixed::lemma_fmul_units(t as int, t as int, 1, 1);
        crate::fixed::lemma_tdiv_bounds((t as int) * (t as int), SCALE as int);
        assert((t as int) * (t as int) >= 0) by (nonlinear_arith);
        crate::fixed::lemma_fmul_units(
            fmul(t as int, t as int),
            3 * SCALE - 2 * (t as int),
            1,
            3,
        );
        assert(fmul(t as int, t as int) * (3 * SCALE - 2 * (t as int)) >= 0) by (nonlinear_arith)
            requires
                fmul(t as int, t as int) >= 0,
                3 * SCALE - 2 * (t as int) >= 0,
        ;
        crate::fixed::lemma_tdiv_bounds(
            fmul(t as int, t as int) * (3 * SCALE - 2 * (t as int)),
            SCALE as int,
        );
    }
    fx_mul_sat(fx_mul_sat(t, t), 3 * SCALE - 2 * t)
}

/// Every draw of `random_range(-1, 1)` lands within one unit.
proof fn lemma_random_range_unit(v: Vec3, min: int, max: int)
    requires
        min == -SCALE,
        max == SCALE,
        exists|t: int|
            0 <= t < SCALE && v.x == sat64(min + #[trigger] fmul(t, max - min)),
        exists|t: int|
            0 <= t < SCALE && v.y == sat64(min + #[trigger] fmul(t, max - min)),
        exists|t: int|
            0 <= t < SCALE && v.z == sat64(min + #[trigger] fmul(t, max - min)),
    ensures
        unit_range(v, 1),
{
    let tx = choose|t: int| 0 <= t < SCALE && v.x == sat64(min + #[trigger] fmul(t, max - min));
    let ty = choose|t: int| 0 <= t < SCALE && v.y == sat64(min + #[trigger] fmul(t, max - min));
    let tz = choose|t: int| 0 <= t < SCALE && v.z == sat64(min + #[trigger] fmul(t, max - min));
    assert(max - min == 2 * SCALE);
    assert(tx * (max - min) == (2 * tx) * SCALE) by (nonlinear_arith)
        requires
            max - min == 2 * SCALE,
    ;
    assert(ty * (max - min) == (2 * ty) * SCALE) by (nonlinear_arith)
        requires
            max - min == 2 * SCALE,
    ;
    assert(tz * (max - min) == (2 * tz) * SCALE) by (nonlinear_arith)
        requires
            max - min == 2 * SCALE,
    ;
    lemma_tdiv_exact(2 * tx, SCALE as int);
    lemma_tdiv_exact(2 * ty, SCALE as int);
    lemma_tdiv_exact(2 * tz, SCALE as int);
}

} // verus!
