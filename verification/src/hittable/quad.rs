//! Parallelogram primitives: a corner point and two edge vectors.
//!
//! The plane quantities (normal, plane constant, planar coordinates) are
//! recomputed exactly from the stored edges at each query, over raw
//! integer products, so the corner mapping is exact.

use vstd::prelude::*;

use std::sync::Arc;

use crate::aabb::{aabb_in_range, spec_aabb_contains, spec_aabb_union, spec_from_corners, spec_padded, AABB};
use crate::fixed::{
    lemma_abs_mul_bound, sat64, sat_to_i64, sdiv, sdiv128, sqrt_floor, tdiv, tdiv128, COORD_MAX,
    SCALE,
};
use crate::hittable::{HitRecord, HittableObject};
use crate::interval::{spec_contains, Interval};
use crate::material::{material_wf, Material};
use crate::ray::{spec_at, Ray};
use crate::rng::arc_clone;
use crate::vec3::{in_range, spec_add, spec_dot_raw, spec_neg, spec_scale, spec_sub, vec_bounded, Point3, Vec3};

verus! {

/// Largest edge-vector component of a quad.
pub const QUAD_EDGE_MAX: i64 = 16777216;

/// Largest planar offset from the corner that a hit point may have.
pub const PLANAR_MAX: i64 = 1073741824;

/// Threshold below which the plane equation counts the ray as parallel
/// (the analogue of a small real threshold on the raw product scale).
pub const QUAD_PARALLEL_EPS: i128 = 2814750;

pub struct Quad {
    pub q: Point3,
    pub u: Vec3,
    pub v: Vec3,
    pub mat: Arc<Material>,
    pub bbox: AABB,
}

pub open spec fn quad_wf(q: Quad) -> bool {
    &&& vec_bounded(q.q, COORD_MAX / 2)
    &&& vec_bounded(q.u, QUAD_EDGE_MAX as int)
    &&& vec_bounded(q.v, QUAD_EDGE_MAX as int)
    &&& aabb_in_range(q.bbox)
    &&& q.bbox == spec_quad_bbox(q.q, q.u, q.v)
    &&& material_wf(*q.mat)
}

/// The cached box of a quad: the padded union of its two diagonal
/// corner boxes, so all four corners are covered.
pub open spec fn spec_quad_bbox(q: Point3, u: Vec3, v: Vec3) -> AABB {
    spec_padded(
        spec_aabb_union(
            spec_from_corners(q, spec_add(spec_add(q, u), v)),
            spec_from_corners(spec_add(q, u), spec_add(q, v)),
        ),
    )
}

/// Raw cross-product components (two scale factors, no rounding).
pub open spec fn crx(a: Vec3, b: Vec3) -> int {
    a.y * b.z - a.z * b.y
}

pub open spec fn cry(a: Vec3, b: Vec3) -> int {
    a.z * b.x - a.x * b.z
}

pub open spec fn crz(a: Vec3, b: Vec3) -> int {
    a.x * b.y - a.y * b.x
}

/// The planar coordinates `(alpha, beta)` of an offset `pl` from the
/// quad's corner, in its edge basis, exactly:
/// `alpha = n . (pl x v) / n . n`, `beta = n . (u x pl) / n . n`.
pub open spec fn spec_planar_coords(q: Quad, pl: Vec3) -> (int, int) {
    let nx = crx(q.u, q.v);
    let ny = cry(q.u, q.v);
    let nz = crz(q.u, q.v);
    let nn = nx * nx + ny * ny + nz * nz;
    let anum = nx * crx(pl, q.v) + ny * cry(pl, q.v) + nz * crz(pl, q.v);
    let bnum = nx * crx(q.u, pl) + ny * cry(q.u, pl) + nz * crz(q.u, pl);
    (sat64(tdiv(anum * SCALE, nn)), sat64(tdiv(bnum * SCALE, nn)))
}

/// The unit normal derived from the raw cross product.
pub open spec fn spec_quad_normal(q: Quad) -> Vec3 {
    let nx = crx(q.u, q.v);
    let ny = cry(q.u, q.v);
    let nz = crz(q.u, q.v);
    let nn = nx * nx + ny * ny + nz * nz;
    let nlen = sqrt_floor(nn);
    Vec3 {
        x: sat64(tdiv(nx * SCALE, nlen)) as i64,
        y: sat64(tdiv(ny * SCALE, nlen)) as i64,
        z: sat64(tdiv(nz * SCALE, nlen)) as i64,
    }
}

/// A planar coordinate pair lies strictly inside the quad.
pub open spec fn spec_is_interiour(a: int, b: int) -> bool {
    0 < a < SCALE && 0 < b < SCALE
}

/// The plane parameter a quad solves for a ray, independent of the
/// search window.
pub open spec fn spec_quad_t(q: Quad, r: Ray) -> int {
    let nx = crx(q.u, q.v);
    let ny = cry(q.u, q.v);
    let nz = crz(q.u, q.v);
    let denom = nx * r.dir.x + ny * r.dir.y + nz * r.dir.z;
    let dconst = nx * q.q.x + ny * q.q.y + nz * q.q.z;
    let ndoto = nx * r.orig.x + ny * r.orig.y + nz * r.orig.z;
    sat64(sdiv((dconst - ndoto) * SCALE, denom))
}

/// Whether the plane parameter leads to an accepted interior point; also
/// independent of the search window.
pub open spec fn spec_quad_accepts(q: Quad, r: Ray) -> bool {
    let nx = crx(q.u, q.v);
    let ny = cry(q.u, q.v);
    let nz = crz(q.u, q.v);
    let denom = nx * r.dir.x + ny * r.dir.y + nz * r.dir.z;
    let dabs = if denom >= 0 {
        denom
    } else {
        -denom
    };
    let t = spec_quad_t(q, r);
    let pl = spec_sub(spec_at(r, t), q.q);
    let ab = spec_planar_coords(q, pl);
    &&& dabs >= QUAD_PARALLEL_EPS
    &&& vec_bounded(pl, PLANAR_MAX as int)
    &&& spec_is_interiour(ab.0, ab.1)
}

/// The record built for the accepted plane parameter.
pub open spec fn spec_quad_record(q: Quad, r: Ray) -> HitRecord {
    let t = spec_quad_t(q, r);
    let p = spec_at(r, t);
    let pl = spec_sub(p, q.q);
    let ab = spec_planar_coords(q, pl);
    let un = spec_quad_normal(q);
    let ff = spec_dot_raw(r.dir, un) < 0;
    HitRecord {
        p,
        normal: if ff {
            un
        } else {
            spec_neg(un)
        },
        mat: q.mat,
        t: t as i64,
        u: ab.0 as i64,
        v: ab.1 as i64,
        front_face: ff,
    }
}

/// The hit of a ray against a quad: solve the plane equation exactly,
/// then test the planar coordinates.  Only the window test depends on
/// `ray_t`.
pub open spec fn spec_quad_hit(q: Quad, r: Ray, ray_t: Interval) -> Option<HitRecord> {
    if spec_quad_accepts(q, r) && spec_contains(ray_t, spec_quad_t(q, r)) {
        Option::Some(spec_quad_record(q, r))
    } else {
        Option::None
    }
}

/// A quad answers consistently as the search window shrinks: its plane
/// parameter does not depend on the window, so a nearer hit is kept and
/// a farther one disappears (one exactly at the shrink point is kept,
/// the window test being closed).
pub proof fn lemma_quad_window_consistent(q: Quad, r: Ray, ray_t: Interval, u: int)
    requires
        u <= ray_t.max,
        i64::MIN <= u <= i64::MAX,
    ensures
        crate::hittable::window_consistent(HittableObject::Quad(q), r, ray_t, u),
{
}

/// The squared raw normal of a quad.
pub open spec fn spec_quad_nn(q: Quad) -> int {
    crx(q.u, q.v) * crx(q.u, q.v) + cry(q.u, q.v) * cry(q.u, q.v) + crz(q.u, q.v) * crz(
        q.u,
        q.v,
    )
}

/// The cached box of a well-formed quad contains all four corner points
/// `Q`, `Q+u`, `Q+v` and `Q+u+v`.
pub proof fn lemma_quad_bbox_corners(q: Quad)
    requires
        quad_wf(q),
    ensures
        spec_aabb_contains(q.bbox, q.q.x as int, q.q.y as int, q.q.z as int),
        spec_aabb_contains(q.bbox, q.q.x + q.u.x, q.q.y + q.u.y, q.q.z + q.u.z),
        spec_aabb_contains(q.bbox, q.q.x + q.v.x, q.q.y + q.v.y, q.q.z + q.v.z),
        spec_aabb_contains(
            q.bbox,
            q.q.x + q.u.x + q.v.x,
            q.q.y + q.u.y + q.v.y,
            q.q.z + q.u.z + q.v.z,
        ),
{
    let cu = spec_add(q.q, q.u);
    let cv = spec_add(q.q, q.v);
    let cuv = spec_add(spec_add(q.q, q.u), q.v);
    assert(cu.x == q.q.x + q.u.x && cu.y == q.q.y + q.u.y && cu.z == q.q.z + q.u.z);
    assert(cv.x == q.q.x + q.v.x && cv.y == q.q.y + q.v.y && cv.z == q.q.z + q.v.z);
    assert(cuv.x == q.q.x + q.u.x + q.v.x && cuv.y == q.q.y + q.u.y + q.v.y && cuv.z == q.q.z
        + q.u.z + q.v.z);
}

/// Planar coordinates are exact on exact edge combinations: an offset
/// `(ka * u + kb * v) / 1` (scaled) maps to exactly `(ka, kb)`.
#[verifier::rlimit(60)]
#[verifier::spinoff_prover]
pub proof fn lemma_quad_planar_exact(q: Quad, pl: Vec3, ka: int, kb: int)
    requires
        0 <= ka <= SCALE,
        0 <= kb <= SCALE,
        spec_quad_nn(q) > 0,
        pl.x * SCALE == ka * q.u.x + kb * q.v.x,
        pl.y * SCALE == ka * q.u.y + kb * q.v.y,
        pl.z * SCALE == ka * q.u.z + kb * q.v.z,
    ensures
        spec_planar_coords(q, pl) == (ka, kb),
{
    let nx = crx(q.u, q.v);
    let ny = cry(q.u, q.v);
    let nz = crz(q.u, q.v);
    let nn = spec_quad_nn(q);
    assert(crx(pl, q.v) * SCALE == ka * nx) by (nonlinear_arith)
        requires
            pl.y * SCALE == ka * q.u.y + kb * q.v.y,
            pl.z * SCALE == ka * q.u.z + kb * q.v.z,
            crx(pl, q.v) == pl.y * q.v.z - pl.z * q.v.y,
            nx == q.u.y * q.v.z - q.u.z * q.v.y,
    ;
    assert(cry(pl, q.v) * SCALE == ka * ny) by (nonlinear_arith)
        requires
            pl.z * SCALE == ka * q.u.z + kb * q.v.z,
            pl.x * SCALE == ka * q.u.x + kb * q.v.x,
            cry(pl, q.v) == pl.z * q.v.x - pl.x * q.v.z,
            ny == q.u.z * q.v.x - q.u.x * q.v.z,
    ;
    assert(crz(pl, q.v) * SCALE == ka * nz) by (nonlinear_arith)
        requires
            pl.x * SCALE == ka * q.u.x + kb * q.v.x,
            pl.y * SCALE == ka * q.u.y + kb * q.v.y,
            crz(pl, q.v) == pl.x * q.v.y - pl.y * q.v.x,
            nz == q.u.x * q.v.y - q.u.y * q.v.x,
    ;
    assert(crx(q.u, pl) * SCALE == kb * nx) by (nonlinear_arith)
        requires
            pl.y * SCALE == ka * q.u.y + kb * q.v.y,
            pl.z * SCALE == ka * q.u.z + kb * q.v.z,
            crx(q.u, pl) == q.u.y * pl.z - q.u.z * pl.y,
            nx == q.u.y * q.v.z - q.u.z * q.v.y,
    ;
    assert(cry(q.u, pl) * SCALE == kb * ny) by (nonlinear_arith)
        requires
            pl.z * SCALE == ka * q.u.z + kb * q.v.z,
            pl.x * SCALE == ka * q.u.x + kb * q.v.x,
            cry(q.u, pl) == q.u.z * pl.x - q.u.x * pl.z,
            ny == q.u.z * q.v.x - q.u.x * q.v.z,
    ;
    assert(crz(q.u, pl) * SCALE == kb * nz) by (nonlinear_arith)
        requires
            pl.x * SCALE == ka * q.u.x + kb * q.v.x,
            pl.y * SCALE == ka * q.u.y + kb * q.v.y,
            crz(q.u, pl) == q.u.x * pl.y - q.u.y * pl.x,
            nz == q.u.x * q.v.y - q.u.y * q.v.x,
    ;
    let anum = nx * crx(pl, q.v) + ny * cry(pl, q.v) + nz * crz(pl, q.v);
    let bnum = nx * crx(q.u, pl) + ny * cry(q.u, pl) + nz * crz(q.u, pl);
    lemma_triple_sum(nx, ny, nz, crx(pl, q.v), cry(pl, q.v), crz(pl, q.v), ka);
    lemma_triple_sum(nx, ny, nz, crx(q.u, pl), cry(q.u, pl), crz(q.u, pl), kb);
    assert(anum * SCALE == ka * nn);
    assert(bnum * SCALE == kb * nn);
    crate::fixed::lemma_tdiv_exact(ka, nn);
    crate::fixed::lemma_tdiv_exact(kb, nn);
    assert(ka * nn == nn * ka) by (nonlinear_arith);
    assert(kb * nn == nn * kb) by (nonlinear_arith);
}

/// Summing three scaled component identities against the normal.
proof fn lemma_triple_sum(nx: int, ny: int, nz: int, cx: int, cy: int, cz: int, k: int)
    requires
        cx * SCALE == k * nx,
        cy * SCALE == k * ny,
        cz * SCALE == k * nz,
    ensures
        (nx * cx + ny * cy + nz * cz) * SCALE == k * (nx * nx + ny * ny + nz * nz),
{
    assert(nx * (cx * SCALE) == nx * (k * nx));
    assert(ny * (cy * SCALE) == ny * (k * ny));
    assert(nz * (cz * SCALE) == nz * (k * nz));
    assert(nx * (cx * SCALE) == (nx * cx) * SCALE) by (nonlinear_arith);
    assert(ny * (cy * SCALE) == (ny * cy) * SCALE) by (nonlinear_arith);
    assert(nz * (cz * SCALE) == (nz * cz) * SCALE) by (nonlinear_arith);
    assert(nx * (k * nx) == k * (nx * nx)) by (nonlinear_arith);
    assert(ny * (k * ny) == k * (ny * ny)) by (nonlinear_arith);
    assert(nz * (k * nz) == k * (nz * nz)) by (nonlinear_arith);
    assert((nx * cx + ny * cy + nz * cz) * SCALE == (nx * cx) * SCALE + (ny * cy) * SCALE + (nz
        * cz) * SCALE) by (nonlinear_arith);
    assert(k * (nx * nx + ny * ny + nz * nz) == k * (nx * nx) + k * (ny * ny) + k * (nz * nz))
        by (nonlinear_arith);
}

/// The four corner points of a quad map to planar coordinates with both
/// components in `{0, 1}`, exactly.
pub proof fn lemma_quad_corners(q: Quad)
    requires
        quad_wf(q),
        spec_quad_nn(q) > 0,
    ensures
        spec_planar_coords(q, Vec3 { x: 0, y: 0, z: 0 }) == (0int, 0int),
        spec_planar_coords(q, q.u) == (SCALE as int, 0int),
        spec_planar_coords(q, q.v) == (0int, SCALE as int),
        spec_planar_coords(q, spec_add(q.u, q.v)) == (SCALE as int, SCALE as int),
{
    lemma_quad_planar_exact(q, Vec3 { x: 0, y: 0, z: 0 }, 0, 0);
    lemma_quad_planar_exact(q, q.u, SCALE as int, 0);
    lemma_quad_planar_exact(q, q.v, 0, SCALE as int);
    let s = spec_add(q.u, q.v);
    assert(s.x == q.u.x + q.v.x && s.y == q.u.y + q.v.y && s.z == q.u.z + q.v.z);
    assert((q.u.x + q.v.x) * SCALE == SCALE * q.u.x + SCALE * q.v.x) by (nonlinear_arith);
    assert((q.u.y + q.v.y) * SCALE == SCALE * q.u.y + SCALE * q.v.y) by (nonlinear_arith);
    assert((q.u.z + q.v.z) * SCALE == SCALE * q.u.z + SCALE * q.v.z) by (nonlinear_arith);
    assert(q.u.x * SCALE == SCALE * q.u.x) by (nonlinear_arith);
    assert(q.u.y * SCALE == SCALE * q.u.y) by (nonlinear_arith);
    assert(q.u.z * SCALE == SCALE * q.u.z) by (nonlinear_arith);
    assert(q.v.x * SCALE == SCALE * q.v.x) by (nonlinear_arith);
    assert(q.v.y * SCALE == SCALE * q.v.y) by (nonlinear_arith);
    assert(q.v.z * SCALE == SCALE * q.v.z) by (nonlinear_arith);
    lemma_quad_planar_exact(q, s, SCALE as int, SCALE as int);
}

/// The centroid maps to planar coordinates of exactly one half, on quads
/// whose summed edge components are all even (otherwise the halving
/// rounds).
pub proof fn lemma_quad_centroid(q: Quad)
    requires
        quad_wf(q),
        spec_quad_nn(q) > 0,
        (q.u.x + q.v.x) % 2 == 0,
        (q.u.y + q.v.y) % 2 == 0,
        (q.u.z + q.v.z) % 2 == 0,
    ensures
        spec_planar_coords(q, spec_scale(spec_add(q.u, q.v), SCALE / 2)) == (
            SCALE as int / 2,
            SCALE as int / 2,
        ),
{
    let s = spec_add(q.u, q.v);
    let half = SCALE as int / 2;
    let pl = spec_scale(s, half);
    lemma_centroid_comp(q.u.x as int, q.v.x as int);
    lemma_centroid_comp(q.u.y as int, q.v.y as int);
    lemma_centroid_comp(q.u.z as int, q.v.z as int);
    assert(pl.x == crate::fixed::fmul_sat(s.x as int, half));
    lemma_quad_planar_exact(q, pl, half, half);
}

/// Halving an even sum through the fixed product is exact.
proof fn lemma_centroid_comp(a: int, b: int)
    requires
        -(QUAD_EDGE_MAX as int) <= a <= QUAD_EDGE_MAX,
        -(QUAD_EDGE_MAX as int) <= b <= QUAD_EDGE_MAX,
        (a + b) % 2 == 0,
    ensures
        crate::fixed::fmul_sat(a + b, SCALE as int / 2) * SCALE == (SCALE as int / 2) * a + (
        SCALE as int / 2) * b,
{
    let k = (a + b) / 2;
    vstd::arithmetic::div_mod::lemma_fundamental_div_mod(a + b, 2);
    assert(a + b == 2 * k);
    assert((a + b) * (SCALE as int / 2) == k * SCALE) by (nonlinear_arith)
        requires
            a + b == 2 * k,
    ;
    crate::fixed::lemma_tdiv_exact(k, SCALE as int);
    assert(crate::fixed::fmul(a + b, SCALE as int / 2) == k);
    assert(-16777216 <= k <= 16777216);
    assert(crate::fixed::fmul_sat(a + b, SCALE as int / 2) == k);
    assert(k * SCALE == (SCALE as int / 2) * a + (SCALE as int / 2) * b) by (nonlinear_arith)
        requires
            a + b == 2 * k,
            SCALE == 65536,
    ;
}

impl Quad {
    pub fn new(q: Point3, u: Vec3, v: Vec3, mat: Arc<Material>) -> (res: HittableObject)
        requires
            vec_bounded(q, COORD_MAX / 2),
            vec_bounded(u, QUAD_EDGE_MAX as int),
            vec_bounded(v, QUAD_EDGE_MAX as int),
            material_wf(*mat),
        ensures
            res matches HittableObject::Quad(qd) && quad_wf(qd) && qd.q == q && qd.u == u
                && qd.v == v && qd.mat == mat && qd.bbox == spec_quad_bbox(q, u, v),
    {
        let far = q.add(&u).add(&v);
        let near_u = q.add(&u);
        let near_v = q.add(&v);
        let bbox = AABB::union(
            &AABB::from_corners(q, far),
            &AABB::from_corners(near_u, near_v),
        ).padded();
        HittableObject::Quad(Quad { q, u, v, mat, bbox })
    }

    pub fn hit(&self, r: &Ray, ray_t: Interval) -> (res: Option<HitRecord>)
        requires
            quad_wf(*self),
            in_range(r.orig),
            in_range(r.dir),
        ensures
            res == spec_quad_hit(*self, *r, ray_t),
    {
        proof {
            lemma_quad_plane_bounds(*self, *r);
            lemma_abs_mul_bound(self.u.y as int, self.v.z as int, 0x1000000, 0x1000000);
            lemma_abs_mul_bound(self.u.z as int, self.v.y as int, 0x1000000, 0x1000000);
            lemma_abs_mul_bound(self.u.z as int, self.v.x as int, 0x1000000, 0x1000000);
            lemma_abs_mul_bound(self.u.x as int, self.v.z as int, 0x1000000, 0x1000000);
            lemma_abs_mul_bound(self.u.x as int, self.v.y as int, 0x1000000, 0x1000000);
            lemma_abs_mul_bound(self.u.y as int, self.v.x as int, 0x1000000, 0x1000000);
        }
        let nx: i128 = (self.u.y as i128) * (self.v.z as i128) - (self.u.z as i128)
            * (self.v.y as i128);
        let ny: i128 = (self.u.z as i128) * (self.v.x as i128) - (self.u.x as i128)
            * (self.v.z as i128);
        let nz: i128 = (self.u.x as i128) * (self.v.y as i128) - (self.u.y as i128)
            * (self.v.x as i128);
        let denom: i128 = nx * (r.dir.x as i128) + ny * (r.dir.y as i128) + nz
            * (r.dir.z as i128);
        let dabs = if denom >= 0 {
            denom
        } else {
            -denom
        };
        if dabs < QUAD_PARALLEL_EPS {
            return None;
        }
        let dconst: i128 = nx * (self.q.x as i128) + ny * (self.q.y as i128) + nz
            * (self.q.z as i128);
        let ndoto: i128 = nx * (r.orig.x as i128) + ny * (r.orig.y as i128) + nz
            * (r.orig.z as i128);
        let t = sat_to_i64(sdiv128((dconst - ndoto) * (SCALE as i128), denom));
        if !ray_t.contains(t) {
            return None;
        }
        let p = r.at(t);
        let pl = p.sub(&self.q);
        if pl.x < -PLANAR_MAX || pl.x > PLANAR_MAX || pl.y < -PLANAR_MAX || pl.y > PLANAR_MAX
            || pl.z < -PLANAR_MAX || pl.z > PLANAR_MAX {
            return None;
        }
        proof {
            lemma_quad_planar_bounds(*self, pl);
            lemma_abs_mul_bound(pl.y as int, self.v.z as int, 0x40000000, 0x1000000);
            lemma_abs_mul_bound(pl.z as int, self.v.y as int, 0x40000000, 0x1000000);
            lemma_abs_mul_bound(pl.z as int, self.v.x as int, 0x40000000, 0x1000000);
            lemma_abs_mul_bound(pl.x as int, self.v.z as int, 0x40000000, 0x1000000);
            lemma_abs_mul_bound(pl.x as int, self.v.y as int, 0x40000000, 0x1000000);
            lemma_abs_mul_bound(pl.y as int, self.v.x as int, 0x40000000, 0x1000000);
            lemma_abs_mul_bound(self.u.y as int, pl.z as int, 0x1000000, 0x40000000);
            lemma_abs_mul_bound(self.u.z as int, pl.y as int, 0x1000000, 0x40000000);
            lemma_abs_mul_bound(self.u.z as int, pl.x as int, 0x1000000, 0x40000000);
            lemma_abs_mul_bound(self.u.x as int, pl.z as int, 0x1000000, 0x40000000);
            lemma_abs_mul_bound(self.u.x as int, pl.y as int, 0x1000000, 0x40000000);
            lemma_abs_mul_bound(self.u.y as int, pl.x as int, 0x1000000, 0x40000000);
        }
        let pvx: i128 = (pl.y as i128) * (self.v.z as i128) - (pl.z as i128)
            * (self.v.y as i128);
        let pvy: i128 = (pl.z as i128) * (self.v.x as i128) - (pl.x as i128)
            * (self.v.z as i128);
        let pvz: i128 = (pl.x as i128) * (self.v.y as i128) - (pl.y as i128)
            * (self.v.x as i128);
        let upx: i128 = (self.u.y as i128) * (pl.z as i128) - (self.u.z as i128)
            * (pl.y as i128);
        let upy: i128 = (self.u.z as i128) * (pl.x as i128) - (self.u.x as i128)
            * (pl.z as i128);
        let upz: i128 = (self.u.x as i128) * (pl.y as i128) - (self.u.y as i128)
            * (pl.x as i128);
        let nn: i128 = nx * nx + ny * ny + nz * nz;
        proof {
            lemma_nn_positive(
                nx as int,
                ny as int,
                nz as int,
                r.dir.x as int,
                r.dir.y as int,
                r.dir.z as int,
            );
        }
        let anum: i128 = nx * pvx + ny * pvy + nz * pvz;
        let bnum: i128 = nx * upx + ny * upy + nz * upz;
        let alpha = sat_to_i64(tdiv128(anum * (SCALE as i128), nn));
        let beta = sat_to_i64(tdiv128(bnum * (SCALE as i128), nn));
        if !is_interiour(alpha, beta) {
            return None;
        }
        let nlen = crate::fixed::isqrt128(nn as u128);
        proof {
            crate::fixed::lemma_sqrt_floor_unique(nn as int, nlen as int);
            if nlen == 0 {
                assert((nn as u128) < (0 + 1) * (0 + 1));
            }
            assert(nlen >= 1);
        }
        let un = Vec3 {
            x: sat_to_i64(tdiv128(nx * (SCALE as i128), nlen as i128)),
            y: sat_to_i64(tdiv128(ny * (SCALE as i128), nlen as i128)),
            z: sat_to_i64(tdiv128(nz * (SCALE as i128), nlen as i128)),
        };
        let mut rec = HitRecord::new(p, t, arc_clone(&self.mat), alpha, beta);
        rec.set_face_normal(r, &un);
        Some(rec)
    }

    pub fn bounding_box(&self) -> (r: AABB)
        ensures
            r == self.bbox,
    {
        self.bbox
    }
}

fn is_interiour(a: i64, b: i64) -> (r: bool)
    ensures
        r == spec_is_interiour(a as int, b as int),
{
    0 < a && a < SCALE && 0 < b && b < SCALE
}

/// The raw plane quantities fit comfortably in `i128`.
proof fn lemma_quad_plane_bounds(q: Quad, r: Ray)
    requires
        quad_wf(q),
        in_range(r.orig),
        in_range(r.dir),
    ensures
        -0x2000000000000 <= crx(q.u, q.v) <= 0x2000000000000,
        -0x2000000000000 <= cry(q.u, q.v) <= 0x2000000000000,
        -0x2000000000000 <= crz(q.u, q.v) <= 0x2000000000000,
        -0x100000000000000000000 <= crx(q.u, q.v) * r.dir.x <= 0x100000000000000000000,
        -0x100000000000000000000 <= cry(q.u, q.v) * r.dir.y <= 0x100000000000000000000,
        -0x100000000000000000000 <= crz(q.u, q.v) * r.dir.z <= 0x100000000000000000000,
        -0x100000000000000000000 <= crx(q.u, q.v) * q.q.x <= 0x100000000000000000000,
        -0x100000000000000000000 <= cry(q.u, q.v) * q.q.y <= 0x100000000000000000000,
        -0x100000000000000000000 <= crz(q.u, q.v) * q.q.z <= 0x100000000000000000000,
        -0x100000000000000000000 <= crx(q.u, q.v) * r.orig.x <= 0x100000000000000000000,
        -0x100000000000000000000 <= cry(q.u, q.v) * r.orig.y <= 0x100000000000000000000,
        -0x100000000000000000000 <= crz(q.u, q.v) * r.orig.z <= 0x100000000000000000000,
        -0x10000000000000000000000000 <= crx(q.u, q.v) * crx(q.u, q.v)
            <= 0x10000000000000000000000000,
        -0x10000000000000000000000000 <= cry(q.u, q.v) * cry(q.u, q.v)
            <= 0x10000000000000000000000000,
        -0x10000000000000000000000000 <= crz(q.u, q.v) * crz(q.u, q.v)
            <= 0x10000000000000000000000000,
{
    lemma_abs_mul_bound(q.u.y as int, q.v.z as int, 0x1000000, 0x1000000);
    lemma_abs_mul_bound(q.u.z as int, q.v.y as int, 0x1000000, 0x1000000);
    lemma_abs_mul_bound(q.u.z as int, q.v.x as int, 0x1000000, 0x1000000);
    lemma_abs_mul_bound(q.u.x as int, q.v.z as int, 0x1000000, 0x1000000);
    lemma_abs_mul_bound(q.u.x as int, q.v.y as int, 0x1000000, 0x1000000);
    lemma_abs_mul_bound(q.u.y as int, q.v.x as int, 0x1000000, 0x1000000);
    lemma_abs_mul_bound(crx(q.u, q.v), r.dir.x as int, 0x2000000000000, 0x10000000);
    lemma_abs_mul_bound(cry(q.u, q.v), r.dir.y as int, 0x2000000000000, 0x10000000);
    lemma_abs_mul_bound(crz(q.u, q.v), r.dir.z as int, 0x2000000000000, 0x10000000);
    lemma_abs_mul_bound(crx(q.u, q.v), q.q.x as int, 0x2000000000000, 0x10000000);
    lemma_abs_mul_bound(cry(q.u, q.v), q.q.y as int, 0x2000000000000, 0x10000000);
    lemma_abs_mul_bound(crz(q.u, q.v), q.q.z as int, 0x2000000000000, 0x10000000);
    lemma_abs_mul_bound(crx(q.u, q.v), r.orig.x as int, 0x2000000000000, 0x10000000);
    lemma_abs_mul_bound(cry(q.u, q.v), r.orig.y as int, 0x2000000000000, 0x10000000);
    lemma_abs_mul_bound(crz(q.u, q.v), r.orig.z as int, 0x2000000000000, 0x10000000);
    lemma_abs_mul_bound(crx(q.u, q.v), crx(q.u, q.v), 0x2000000000000, 0x2000000000000);
    lemma_abs_mul_bound(cry(q.u, q.v), cry(q.u, q.v), 0x2000000000000, 0x2000000000000);
    lemma_abs_mul_bound(crz(q.u, q.v), crz(q.u, q.v), 0x2000000000000, 0x2000000000000);
}

/// The planar numerators fit in `i128` once the offset is range-checked.
proof fn lemma_quad_planar_bounds(q: Quad, pl: Vec3)
    requires
        quad_wf(q),
        vec_bounded(pl, PLANAR_MAX as int),
    ensures
        -0x100000000000000 <= crx(pl, q.v) <= 0x100000000000000,
        -0x100000000000000 <= cry(pl, q.v) <= 0x100000000000000,
        -0x100000000000000 <= crz(pl, q.v) <= 0x100000000000000,
        -0x100000000000000 <= crx(q.u, pl) <= 0x100000000000000,
        -0x100000000000000 <= cry(q.u, pl) <= 0x100000000000000,
        -0x100000000000000 <= crz(q.u, pl) <= 0x100000000000000,
        -0x800000000000000000000000000 <= crx(q.u, q.v) * crx(pl, q.v)
            <= 0x800000000000000000000000000,
        -0x800000000000000000000000000 <= cry(q.u, q.v) * cry(pl, q.v)
            <= 0x800000000000000000000000000,
        -0x800000000000000000000000000 <= crz(q.u, q.v) * crz(pl, q.v)
            <= 0x800000000000000000000000000,
        -0x800000000000000000000000000 <= crx(q.u, q.v) * crx(q.u, pl)
            <= 0x800000000000000000000000000,
        -0x800000000000000000000000000 <= cry(q.u, q.v) * cry(q.u, pl)
            <= 0x800000000000000000000000000,
        -0x800000000000000000000000000 <= crz(q.u, q.v) * crz(q.u, pl)
            <= 0x800000000000000000000000000,
{
    lemma_abs_mul_bound(pl.y as int, q.v.z as int, 0x40000000, 0x1000000);
    lemma_abs_mul_bound(pl.z as int, q.v.y as int, 0x40000000, 0x1000000);
    lemma_abs_mul_bound(pl.z as int, q.v.x as int, 0x40000000, 0x1000000);
    lemma_abs_mul_bound(pl.x as int, q.v.z as int, 0x40000000, 0x1000000);
    lemma_abs_mul_bound(pl.x as int, q.v.y as int, 0x40000000, 0x1000000);
    lemma_abs_mul_bound(pl.y as int, q.v.x as int, 0x40000000, 0x1000000);
    lemma_abs_mul_bound(q.u.y as int, pl.z as int, 0x1000000, 0x40000000);
    lemma_abs_mul_bound(q.u.z as int, pl.y as int, 0x1000000, 0x40000000);
    lemma_abs_mul_bound(q.u.z as int, pl.x as int, 0x1000000, 0x40000000);
    lemma_abs_mul_bound(q.u.x as int, pl.z as int, 0x1000000, 0x40000000);
    lemma_abs_mul_bound(q.u.x as int, pl.y as int, 0x1000000, 0x40000000);
    lemma_abs_mul_bound(q.u.y as int, pl.x as int, 0x1000000, 0x40000000);
    lemma_abs_mul_bound(q.u.y as int, q.v.z as int, 0x1000000, 0x1000000);
    lemma_abs_mul_bound(q.u.z as int, q.v.y as int, 0x1000000, 0x1000000);
    lemma_abs_mul_bound(q.u.z as int, q.v.x as int, 0x1000000, 0x1000000);
    lemma_abs_mul_bound(q.u.x as int, q.v.z as int, 0x1000000, 0x1000000);
    lemma_abs_mul_bound(q.u.x as int, q.v.y as int, 0x1000000, 0x1000000);
    lemma_abs_mul_bound(q.u.y as int, q.v.x as int, 0x1000000, 0x1000000);
    lemma_abs_mul_bound(crx(q.u, q.v), crx(pl, q.v), 0x2000000000000, 0x100000000000000);
    lemma_abs_mul_bound(cry(q.u, q.v), cry(pl, q.v), 0x2000000000000, 0x100000000000000);
    lemma_abs_mul_bound(crz(q.u, q.v), crz(pl, q.v), 0x2000000000000, 0x100000000000000);
    lemma_abs_mul_bound(crx(q.u, q.v), crx(q.u, pl), 0x2000000000000, 0x100000000000000);
    lemma_abs_mul_bound(cry(q.u, q.v), cry(q.u, pl), 0x2000000000000, 0x100000000000000);
    lemma_abs_mul_bound(crz(q.u, q.v), crz(q.u, pl), 0x2000000000000, 0x100000000000000);
}

/// A plane with a nonzero ray response has a nonzero normal.
proof fn lemma_nn_positive(nx: int, ny: int, nz: int, dx: int, dy: int, dz: int)
    requires
        nx * dx + ny * dy + nz * dz != 0 || nx * nx + ny * ny + nz * nz > 0,
    ensures
        nx * nx + ny * ny + nz * nz >= 0,
        (nx * dx + ny * dy + nz * dz != 0) ==> nx * nx + ny * ny + nz * nz > 0,
{
    assert(nx * nx >= 0) by (nonlinear_arith);
    assert(ny * ny >= 0) by (nonlinear_arith);
    assert(nz * nz >= 0) by (nonlinear_arith);
    if nx * nx + ny * ny + nz * nz == 0 {
        assert(nx == 0 && ny == 0 && nz == 0) by (nonlinear_arith)
            requires
                nx * nx >= 0,
                ny * ny >= 0,
                nz * nz >= 0,
                nx * nx + ny * ny + nz * nz == 0,
        ;
        assert(nx * dx == 0 && ny * dy == 0 && nz * dz == 0) by (nonlinear_arith)
            requires
                nx == 0 && ny == 0 && nz == 0,
        ;
    }
}

} // verus!
