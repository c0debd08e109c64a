//! Spheres, static or with a linearly moving center.

use vstd::prelude::*;

use std::sync::Arc;

use crate::aabb::{aabb_in_range, spec_aabb_union, AABB};
use crate::fixed::{
    fdiv, lemma_abs_mul_bound, lemma_fmul_units, sat64, sat_to_i64, sqrt_floor, tdiv, tdiv128,
    COORD_MAX, SCALE,
};
use crate::hittable::{HitRecord, HittableObject};
use crate::interval::{spec_surrounds, Interval};
use crate::material::{material_wf, Material};
use crate::ray::{spec_at, Ray};
use crate::rng::arc_clone;
use crate::texture::spec_clamp01;
use crate::trig::{acos_fx, atan2_fx, spec_acos, spec_atan2, PI_FX, TAU_FX};
use crate::vec3::{
    in_range, spec_add, spec_div_scalar, spec_dot_raw, spec_neg, spec_scale, spec_sub, vec_bounded,
    Point3, Vec3,
};

verus! {

pub struct Sphere {
    pub center0: Point3,
    pub radius: i64,
    pub mat: Arc<Material>,
    pub is_moving: bool,
    pub center_vec: Vec3,
    pub bbox: AABB,
}

pub open spec fn sphere_wf(s: Sphere) -> bool {
    &&& vec_bounded(s.center0, COORD_MAX / 2)
    &&& vec_bounded(s.center_vec, COORD_MAX / 2)
    &&& s.radius != 0
    &&& -COORD_MAX / 2 <= s.radius <= COORD_MAX / 2
    &&& aabb_in_range(s.bbox)
    &&& s.bbox == spec_sphere_cached_bbox(s)
    &&& material_wf(*s.mat)
}

/// The cached box a sphere is built with: its corner box, or for a
/// moving sphere the union of the boxes at the two keyframe centers.
pub open spec fn spec_sphere_cached_bbox(s: Sphere) -> AABB {
    if s.is_moving {
        spec_aabb_union(
            spec_sphere_bbox(s.center0, s.radius as int),
            spec_sphere_bbox(spec_add(s.center0, s.center_vec), s.radius as int),
        )
    } else {
        spec_sphere_bbox(s.center0, s.radius as int)
    }
}

/// The center at a sample time: static, or linearly interpolated along
/// `center_vec`.
pub open spec fn spec_sphere_center(s: Sphere, tm: int) -> Point3 {
    if s.is_moving {
        spec_add(s.center0, spec_scale(s.center_vec, tm))
    } else {
        s.center0
    }
}

/// Spherical texture coordinates of an outward unit normal.
pub open spec fn spec_sphere_uv(p: Vec3) -> (int, int) {
    let theta = spec_acos(spec_clamp_pm1(sat64(-p.y)));
    let phi = PI_FX - spec_atan2(p.z as int, p.x as int);
    (
        spec_clamp01(sat64(fdiv(phi, TAU_FX as int))),
        spec_clamp01(sat64(fdiv(theta, PI_FX as int))),
    )
}

pub open spec fn spec_clamp_pm1(x: int) -> int {
    if x < -SCALE {
        -SCALE as int
    } else if x > SCALE {
        SCALE as int
    } else {
        x
    }
}

/// The squared direction length, on the raw (doubly scaled) products.
pub open spec fn spec_sphere_a(r: Ray) -> int {
    spec_dot_raw(r.dir, r.dir)
}

/// The offset of the ray origin from the center at the ray's time.
pub open spec fn spec_sphere_oc(s: Sphere, r: Ray) -> Vec3 {
    spec_sub(r.orig, spec_sphere_center(s, r.tm as int))
}

/// Half the linear coefficient of the sphere quadratic.
pub open spec fn spec_sphere_halfb(s: Sphere, r: Ray) -> int {
    spec_dot_raw(spec_sphere_oc(s, r), r.dir)
}

/// The constant coefficient: squared center distance minus squared
/// radius; negative exactly when the origin is strictly inside.
pub open spec fn spec_sphere_c(s: Sphere, r: Ray) -> int {
    spec_dot_raw(spec_sphere_oc(s, r), spec_sphere_oc(s, r)) - s.radius * s.radius
}

pub open spec fn spec_sphere_disc(s: Sphere, r: Ray) -> int {
    spec_sphere_halfb(s, r) * spec_sphere_halfb(s, r) - spec_sphere_a(r) * spec_sphere_c(s, r)
}

/// The two candidate roots, nearer first.
pub open spec fn spec_sphere_root1(s: Sphere, r: Ray) -> int {
    sat64(
        tdiv(
            (-spec_sphere_halfb(s, r) - sqrt_floor(spec_sphere_disc(s, r))) * SCALE,
            spec_sphere_a(r),
        ),
    )
}

pub open spec fn spec_sphere_root2(s: Sphere, r: Ray) -> int {
    sat64(
        tdiv(
            (-spec_sphere_halfb(s, r) + sqrt_floor(spec_sphere_disc(s, r))) * SCALE,
            spec_sphere_a(r),
        ),
    )
}

/// The hit of a ray against a sphere: solve the quadratic exactly over
/// the raw (doubly scaled) products, take the nearer admissible root.
pub open spec fn spec_sphere_hit(s: Sphere, r: Ray, ray_t: Interval) -> Option<HitRecord> {
    if spec_sphere_a(r) == 0 {
        Option::None
    } else if spec_sphere_disc(s, r) < 0 {
        Option::None
    } else {
        let root1 = spec_sphere_root1(s, r);
        let root2 = spec_sphere_root2(s, r);
        if spec_surrounds(ray_t, root1) {
            Option::Some(spec_sphere_record(s, r, root1))
        } else if spec_surrounds(ray_t, root2) {
            Option::Some(spec_sphere_record(s, r, root2))
        } else {
            Option::None
        }
    }
}

/// A sphere answers consistently as the search window shrinks: its two
/// candidate roots do not depend on the window, and the nearer one is
/// tried first, so a nearer hit is kept and a farther one disappears
/// (the window being open, a hit exactly at the shrink point
/// disappears).
pub proof fn lemma_sphere_window_consistent(s: Sphere, r: Ray, ray_t: Interval, u: int)
    requires
        u <= ray_t.max,
        i64::MIN <= u <= i64::MAX,
    ensures
        crate::hittable::window_consistent(HittableObject::Sphere(s), r, ray_t, u),
{
    if spec_sphere_a(r) == 0 {
    } else if spec_sphere_disc(s, r) < 0 {
    } else {
        let a = spec_sphere_a(r);
        let hb = spec_sphere_halfb(s, r);
        let disc = spec_sphere_disc(s, r);
        crate::vec3::lemma_dot_raw_self_nonneg(r.dir);
        crate::fixed::lemma_sqrt_floor_props(disc);
        let sq = sqrt_floor(disc);
        crate::fixed::lemma_tdiv_mono((-hb - sq) * SCALE, (-hb + sq) * SCALE, a);
        assert((-hb - sq) * SCALE <= (-hb + sq) * SCALE) by (nonlinear_arith)
            requires
                sq >= 0,
                SCALE > 0,
        ;
        assert(spec_sphere_root1(s, r) <= spec_sphere_root2(s, r));
    }
}

/// A ray that starts strictly inside a sphere always finds an
/// intersection over the unbounded search window: the discriminant is
/// positive and the far root is admissible (it is nonnegative and, by
/// hypothesis, not saturated).
pub proof fn lemma_sphere_interior_hit(s: Sphere, r: Ray)
    requires
        spec_sphere_a(r) > 0,
        spec_sphere_c(s, r) < 0,
        tdiv(
            (-spec_sphere_halfb(s, r) + sqrt_floor(spec_sphere_disc(s, r))) * SCALE,
            spec_sphere_a(r),
        ) < i64::MAX,
    ensures
        spec_sphere_disc(s, r) > 0,
        spec_sphere_hit(s, r, Interval { min: i64::MIN, max: i64::MAX }) is Some,
{
    let a = spec_sphere_a(r);
    let hb = spec_sphere_halfb(s, r);
    let c = spec_sphere_c(s, r);
    let disc = spec_sphere_disc(s, r);
    assert(hb * hb >= 0) by (nonlinear_arith);
    assert(a * c < 0) by (nonlinear_arith)
        requires
            a > 0,
            c < 0,
    ;
    assert(disc > 0);
    crate::fixed::lemma_sqrt_floor_props(disc);
    let sq = sqrt_floor(disc);
    let habs = if hb >= 0 {
        hb
    } else {
        -hb
    };
    assert(habs * habs == hb * hb) by (nonlinear_arith)
        requires
            habs == hb || habs == -hb,
    ;
    // sq >= |hb|: otherwise (sq + 1) <= |hb| and disc < (sq+1)^2 <= hb^2
    if sq < habs {
        assert((sq + 1) * (sq + 1) <= habs * habs) by (nonlinear_arith)
            requires
                0 <= sq,
                sq + 1 <= habs,
        ;
        assert(disc < (sq + 1) * (sq + 1));
        assert(disc <= hb * hb);
        assert(false);
    }
    assert(-hb + sq >= 0);
    assert((-hb + sq) * SCALE >= 0) by (nonlinear_arith)
        requires
            -hb + sq >= 0,
            SCALE > 0,
    ;
    crate::fixed::lemma_tdiv_bounds((-hb + sq) * SCALE, a);
    let rv = tdiv((-hb + sq) * SCALE, a);
    assert(0 <= rv < i64::MAX);
    assert(spec_sphere_root2(s, r) == rv);
    assert(spec_surrounds(Interval { min: i64::MIN, max: i64::MAX }, rv));
}

/// Every sphere hit lies strictly inside the search window.  In
/// particular, re-intersecting from a hit point with a window starting
/// above zero can never report the starting point itself again.
pub proof fn lemma_sphere_hit_inside_window(s: Sphere, r: Ray, ray_t: Interval)
    ensures
        spec_sphere_hit(s, r, ray_t) matches Option::Some(rec) ==> spec_surrounds(
            ray_t,
            rec.t as int,
        ),
{
}

/// The record built for an accepted root: the outward normal points
/// from the center at the ray's time to the hit point.
pub open spec fn spec_sphere_record(s: Sphere, r: Ray, t: int) -> HitRecord {
    let p = spec_at(r, t);
    let outward = spec_div_scalar(
        spec_sub(p, spec_sphere_center(s, r.tm as int)),
        s.radius as int,
    );
    let uv = spec_sphere_uv(outward);
    let ff = spec_dot_raw(r.dir, outward) < 0;
    HitRecord {
        p,
        normal: if ff {
            outward
        } else {
            spec_neg(outward)
        },
        mat: s.mat,
        t: t as i64,
        u: uv.0 as i64,
        v: uv.1 as i64,
        front_face: ff,
    }
}

impl Sphere {
    pub fn new(center0: Point3, r: i64, m: Arc<Material>) -> (res: HittableObject)
        requires
            vec_bounded(center0, COORD_MAX / 2),
            r != 0,
            -COORD_MAX / 2 <= r <= COORD_MAX / 2,
            material_wf(*m),
        ensures
            res matches HittableObject::Sphere(s) && sphere_wf(s) && s.center0 == center0
                && s.radius == r && s.mat == m && !s.is_moving && s.bbox == spec_sphere_bbox(
                center0,
                r as int,
            ),
    {
        let rvec = Vec3 { x: r, y: r, z: r };
        let bbox = AABB::from_corners(center0.sub(&rvec), center0.add(&rvec));
        HittableObject::Sphere(
            Sphere {
                center0,
                radius: r,
                mat: m,
                is_moving: false,
                center_vec: Vec3 { x: 0, y: 0, z: 0 },
                bbox,
            },
        )
    }

    pub fn new_moving(center0: Point3, center1: Point3, r: i64, m: Arc<Material>) -> (res:
        HittableObject)
        requires
            vec_bounded(center0, COORD_MAX / 4),
            vec_bounded(center1, COORD_MAX / 4),
            r != 0,
            -COORD_MAX / 4 <= r <= COORD_MAX / 4,
            material_wf(*m),
        ensures
            res matches HittableObject::Sphere(s) && sphere_wf(s) && s.center0 == center0
                && s.radius == r && s.mat == m && s.is_moving && s.center_vec == spec_sub(
                center1,
                center0,
            ) && s.bbox == spec_aabb_union(
                spec_sphere_bbox(center0, r as int),
                spec_sphere_bbox(center1, r as int),
            ),
    {
        let rvec = Vec3 { x: r, y: r, z: r };
        let box0 = AABB::from_corners(center0.sub(&rvec), center0.add(&rvec));
        let box1 = AABB::from_corners(center1.sub(&rvec), center1.add(&rvec));
        HittableObject::Sphere(
            Sphere {
                center0,
                radius: r,
                mat: m,
                is_moving: true,
                center_vec: center1.sub(&center0),
                bbox: AABB::union(&box0, &box1),
            },
        )
    }

    pub fn hit(&self, r: &Ray, ray_t: Interval) -> (res: Option<HitRecord>)
        requires
            sphere_wf(*self),
            in_range(r.orig),
            in_range(r.dir),
            0 <= r.tm <= SCALE,
        ensures
            res == spec_sphere_hit(*self, *r, ray_t),
    {
        let center = if self.is_moving {
            self.center0.add(&self.center_vec.scale(*r.time()))
        } else {
            self.center0
        };
        proof {
            lemma_center_bounded(*self, r.tm as int);
        }
        let oc = r.origin().sub(&center);
        proof {
            lemma_sphere_products(oc, r.dir, self.radius as int);
        }
        let a: i128 = oc_dot(r.direction(), r.direction());
        proof {
            crate::vec3::lemma_dot_raw_self_nonneg(r.dir);
        }
        if a == 0 {
            return None;
        }
        let hb: i128 = oc_dot(&oc, r.direction());
        let cc: i128 = oc_dot(&oc, &oc) - (self.radius as i128) * (self.radius as i128);
        let disc: i128 = hb * hb - a * cc;
        if disc < 0 {
            return None;
        }
        let sq = crate::fixed::isqrt128(disc as u128);
        proof {
            lemma_sqrt_disc_bound(disc as int, sq as int);
            crate::fixed::lemma_sqrt_floor_unique(disc as int, sq as int);
        }
        let num1: i128 = (-hb - sq as i128) * (SCALE as i128);
        let num2: i128 = (-hb + sq as i128) * (SCALE as i128);
        let root1 = sat_to_i64(tdiv128(num1, a));
        let root2 = sat_to_i64(tdiv128(num2, a));
        let root = if ray_t.surrounds(root1) {
            root1
        } else if ray_t.surrounds(root2) {
            root2
        } else {
            return None;
        };
        let p = r.at(root);
        let outward = p.sub(&center).div_scalar(self.radius);
        let uv = get_uv(&outward);
        let mut rec = HitRecord::new(p, root, arc_clone(&self.mat), uv.0, uv.1);
        rec.set_face_normal(r, &outward);
        Some(rec)
    }

    pub fn bounding_box(&self) -> (r: AABB)
        ensures
            r == self.bbox,
    {
        self.bbox
    }
}

/// The box spanned by a sphere's two opposite corner points.
pub open spec fn spec_sphere_bbox(c: Point3, r: int) -> AABB {
    let rvec = Vec3 { x: r as i64, y: r as i64, z: r as i64 };
    let lo = spec_sub(c, rvec);
    let hi = spec_add(c, rvec);
    AABB {
        x: Interval {
            min: if lo.x <= hi.x { lo.x } else { hi.x },
            max: if lo.x >= hi.x { lo.x } else { hi.x },
        },
        y: Interval {
            min: if lo.y <= hi.y { lo.y } else { hi.y },
            max: if lo.y >= hi.y { lo.y } else { hi.y },
        },
        z: Interval {
            min: if lo.z <= hi.z { lo.z } else { hi.z },
            max: if lo.z >= hi.z { lo.z } else { hi.z },
        },
    }
}

/// Raw dot product of two moderately bounded vectors, exactly.
fn oc_dot(v: &Vec3, u: &Vec3) -> (r: i128)
    requires
        vec_bounded(*v, 2 * COORD_MAX),
        vec_bounded(*u, 2 * COORD_MAX),
    ensures
        r as int == spec_dot_raw(*v, *u),
{
    proof {
        crate::vec3::lemma_dot_raw_bound(*v, *u, 0x20000000);
    }
    (v.x as i128) * (u.x as i128) + (v.y as i128) * (u.y as i128) + (v.z as i128) * (u.z as i128)
}

/// The interpolated center stays within coordinate range.
proof fn lemma_center_bounded(s: Sphere, tm: int)
    requires
        sphere_wf(s),
        0 <= tm <= SCALE,
    ensures
        vec_bounded(spec_sphere_center(s, tm), COORD_MAX as int),
{
    if s.is_moving {
        lemma_fmul_units(s.center_vec.x as int, tm, 2048, 1);
        lemma_fmul_units(s.center_vec.y as int, tm, 2048, 1);
        lemma_fmul_units(s.center_vec.z as int, tm, 2048, 1);
    }
}

/// All quadratic terms of the sphere solve stay far inside `i128`.
proof fn lemma_sphere_products(oc: Vec3, d: Vec3, radius: int)
    requires
        vec_bounded(oc, 2 * COORD_MAX),
        vec_bounded(d, COORD_MAX as int),
        -COORD_MAX <= radius <= COORD_MAX,
    ensures
        -0x1000000000000000 <= spec_dot_raw(d, d) <= 0x1000000000000000,
        -0x1000000000000000 <= spec_dot_raw(oc, d) <= 0x1000000000000000,
        -0x1000000000000000 <= spec_dot_raw(oc, oc) <= 0x1000000000000000,
        -0x1000000000000000 <= radius * radius <= 0x1000000000000000,
        -0x2000000000000000 <= spec_dot_raw(oc, oc) - radius * radius <= 0x2000000000000000,
        -0x1000000000000000000000000000000 <= spec_dot_raw(oc, d) * spec_dot_raw(oc, d)
            <= 0x1000000000000000000000000000000,
        -0x2000000000000000000000000000000 <= spec_dot_raw(d, d) * (spec_dot_raw(oc, oc) - radius
            * radius) <= 0x2000000000000000000000000000000,
{
    crate::vec3::lemma_dot_raw_bound(oc, d, 0x20000000);
    crate::vec3::lemma_dot_raw_bound(d, d, 0x10000000);
    crate::vec3::lemma_dot_raw_bound(oc, oc, 0x20000000);
    lemma_abs_mul_bound(radius, radius, 0x10000000, 0x10000000);
    lemma_abs_mul_bound(
        spec_dot_raw(oc, d),
        spec_dot_raw(oc, d),
        0x1000000000000000,
        0x1000000000000000,
    );
    lemma_abs_mul_bound(
        spec_dot_raw(d, d),
        spec_dot_raw(oc, oc) - radius * radius,
        0x1000000000000000,
        0x2000000000000000,
    );
}

/// The discriminant's square root is small enough for the numerators.
proof fn lemma_sqrt_disc_bound(disc: int, sq: int)
    requires
        0 <= disc <= 0x80000000000000000000000000000000,
        sq >= 0,
        sq * sq <= disc,
    ensures
        sq <= 0x10000000000000000,
{
    if sq > 0x10000000000000000 {
        assert(sq * sq > 0x80000000000000000000000000000000) by (nonlinear_arith)
            requires
                sq > 0x10000000000000000,
        ;
    }
}

/// Spherical texture coordinates of an outward normal.
fn get_uv(p: &Vec3) -> (uv: (i64, i64))
    ensures
        uv.0 as int == spec_sphere_uv(*p).0,
        uv.1 as int == spec_sphere_uv(*p).1,
{
    let ny = sat_to_i64(-(p.y as i128));
    let nyc = if ny < -SCALE {
        -SCALE
    } else if ny > SCALE {
        SCALE
    } else {
        ny
    };
    let theta = acos_fx(nyc);
    let phi = PI_FX - atan2_fx(p.z, p.x);
    let u = crate::fixed::fx_div_sat(phi, TAU_FX);
    let v = crate::fixed::fx_div_sat(theta, PI_FX);
    (clamp01(u), clamp01(v))
}

fn clamp01(x: i64) -> (r: i64)
    ensures
        r as int == spec_clamp01(x as int),
{
    if x < 0 {
        0
    } else if x > SCALE {
        SCALE
    } else {
        x
    }
}

} // verus!
