//! Surface behaviors: diffuse, metal and dielectric scattering.

use vstd::prelude::*;

use std::sync::Arc;

use crate::fixed::{fdiv, fmul, fmul_sat, fx_div_sat, fx_mul_sat, sat64, sat_to_i64, SCALE};
use crate::hittable::HitRecord;
use crate::ray::Ray;
use crate::rng::rand_range;
use crate::texture::{spec_texture_value, texture_wf, TextureType};
use crate::vec3::{
    dot, in_range, lemma_dot_units, lemma_normalize_unit, normalize, reflect, refract,
    spec_add, spec_dot, spec_neg, spec_normalize, spec_reflect, spec_refract, spec_scale,
    unit_range, Vec3,
};

verus! {

pub enum Material {
    Lambertian { albedo: Arc<TextureType> },
    Metal { albedo: Vec3, fuzz: i64 },
    Dielectric { ir: i64 },
}

pub open spec fn material_wf(m: Material) -> bool {
    match m {
        Material::Lambertian { albedo } => texture_wf(*albedo),
        Material::Metal { albedo, fuzz } => in_range(albedo) && 0 <= fuzz <= SCALE,
        Material::Dielectric { ir } => SCALE / 4 <= ir <= 4 * SCALE,
    }
}

/// The attenuation a material applies when it scatters: the surface
/// texture's color for a diffuse surface, the metal's own color, white
/// for a dielectric.
pub open spec fn spec_scatter_attenuation(m: Material, rec: HitRecord) -> Vec3 {
    match m {
        Material::Lambertian { albedo } => spec_texture_value(
            *albedo,
            rec.u as int,
            rec.v as int,
            rec.p,
        ),
        Material::Metal { albedo, .. } => albedo,
        Material::Dielectric { .. } => Vec3 { x: SCALE, y: SCALE, z: SCALE },
    }
}

/// Schlick's reflectance approximation in fixed point.
pub open spec fn spec_reflectance(cosine: int, ref_idx: int) -> int
    recommends
        ref_idx > 0,
{
    let r0 = sat64(fdiv(SCALE - ref_idx, SCALE + ref_idx));
    let r0sq = fmul_sat(r0, r0);
    let one_minus = sat64(SCALE - cosine);
    let p2 = fmul_sat(one_minus, one_minus);
    let p4 = fmul_sat(p2, p2);
    let p5 = fmul_sat(p4, one_minus);
    sat64(r0sq + fmul_sat(sat64(SCALE - r0sq), p5))
}

impl Material {
    pub fn new_lambertian(albedo: Vec3) -> (r: Material)
        ensures
            r == (Material::Lambertian {
                albedo: Arc::new(TextureType::SolidColor { color_value: albedo }),
            }),
            material_wf(r),
    {
        Material::Lambertian { albedo: Arc::new(TextureType::new_solid(albedo)) }
    }

    pub fn new_lambertian_textured(albedo: Arc<TextureType>) -> (r: Material)
        requires
            texture_wf(*albedo),
        ensures
            r == (Material::Lambertian { albedo }),
            material_wf(r),
    {
        Material::Lambertian { albedo }
    }

    pub fn new_metal(albedo: Vec3, fuzz: i64) -> (r: Material)
        requires
            in_range(albedo),
            0 <= fuzz <= SCALE,
        ensures
            r == (Material::Metal { albedo, fuzz }),
            material_wf(r),
    {
        Material::Metal { albedo, fuzz }
    }

    pub fn new_dielectric(ir: i64) -> (r: Material)
        requires
            SCALE / 4 <= ir <= 4 * SCALE,
        ensures
            r == (Material::Dielectric { ir }),
            material_wf(r),
    {
        Material::Dielectric { ir }
    }

    /// Schlick's probability that a dielectric reflects.
    fn reflectance(cosine: i64, ref_idx: i64) -> (r: i64)
        requires
            0 < ref_idx <= 4 * SCALE,
        ensures
            r as int == spec_reflectance(cosine as int, ref_idx as int),
    {
        let r0 = fx_div_sat(SCALE - ref_idx, SCALE + ref_idx);
        let r0sq = fx_mul_sat(r0, r0);
        let one_minus = sat_to_i64(SCALE as i128 - cosine as i128);
        let p2 = fx_mul_sat(one_minus, one_minus);
        let p4 = fx_mul_sat(p2, p2);
        let p5 = fx_mul_sat(p4, one_minus);
        let tail = fx_mul_sat(sat_to_i64(SCALE as i128 - r0sq as i128), p5);
        sat_to_i64(r0sq as i128 + tail as i128)
    }

    /// How the surface responds to an incoming ray at a hit: an
    /// attenuation color and a scattered ray, or absorption.
    ///
    /// Diffuse and dielectric surfaces always scatter; a metal absorbs
    /// exactly when the fuzzed reflection leaves pointing into the
    /// surface.
    pub fn scatter(&self, r_in: &Ray, rec: &HitRecord) -> (res: Option<(Vec3, Ray)>)
        requires
            material_wf(*self),
            in_range(r_in.dir),
            unit_range(rec.normal, 2),
        ensures
            res matches Option::Some(p) ==> p.1.orig == rec.p && p.1.tm == r_in.tm && p.0
                == spec_scatter_attenuation(*self, *rec),
            self matches Material::Lambertian { albedo } ==> res matches Option::Some(p)
                && p.0 == spec_texture_value(**albedo, rec.u as int, rec.v as int, rec.p)
                && exists|sv: Vec3|
                unit_range(sv, 1) && p.1.dir == (if #[trigger] spec_add(rec.normal, sv) == (
                Vec3 { x: 0i64, y: 0i64, z: 0i64 }) {
                    rec.normal
                } else {
                    spec_add(rec.normal, sv)
                }),
            self matches Material::Metal { albedo, fuzz } ==> (match res {
                Option::Some(p) => p.0 == albedo && spec_dot(p.1.dir, rec.normal) > 0
                    && exists|sv: Vec3|
                    unit_range(sv, 1) && p.1.dir == spec_add(
                        spec_reflect(spec_normalize(r_in.dir), rec.normal),
                        #[trigger] spec_scale(sv, fuzz as int),
                    ),
                Option::None => true,
            }),
            (self matches Material::Metal { albedo, fuzz } && fuzz == 0) ==> (res is Some
                <==> spec_dot(
                spec_reflect(spec_normalize(r_in.dir), rec.normal),
                rec.normal,
            ) > 0),
            self matches Material::Dielectric { ir } ==> res matches Option::Some(p) && p.0 == (
            Vec3 { x: SCALE, y: SCALE, z: SCALE }) && (p.1.dir == spec_reflect(
                spec_normalize(r_in.dir),
                rec.normal,
            ) || p.1.dir == spec_refract(
                spec_normalize(r_in.dir),
                rec.normal,
                spec_dielectric_ratio(ir as int, rec.front_face),
            )),
    {
        match self {
            Material::Lambertian { albedo } => {
                let rv = Vec3::random_unit_sphere();
                let mut direction = rec.normal.add(&rv);
                if direction.near_zero() {
                    direction = rec.normal;
                }
                proof {
                    assert(unit_range(rv, 1) && direction == (if spec_add(rec.normal, rv) == (
                    Vec3 { x: 0i64, y: 0i64, z: 0i64 }) {
                        rec.normal
                    } else {
                        spec_add(rec.normal, rv)
                    }));
                }
                let attenuation = albedo.value(rec.u, rec.v, &rec.p);
                Some((attenuation, Ray::new_timed(rec.p, direction, *r_in.time())))
            },
            Material::Metal { albedo, fuzz } => {
                let unit = normalize(r_in.direction());
                proof {
                    lemma_normalize_unit(r_in.dir);
                    lemma_unit_in_range(spec_normalize(r_in.dir));
                    lemma_unit_in_range(rec.normal);
                }
                let reflected = reflect(&unit, &rec.normal);
                let rv = Vec3::random_unit_sphere();
                let scattered_dir = reflected.add(&rv.scale(*fuzz));
                proof {
                    if *fuzz == 0 {
                        crate::fixed::lemma_tdiv_bounds(rv.x as int * 0, SCALE as int);
                        assert(rv.x as int * 0 == 0) by (nonlinear_arith);
                        assert(rv.y as int * 0 == 0) by (nonlinear_arith);
                        assert(rv.z as int * 0 == 0) by (nonlinear_arith);
                        assert(spec_scale(rv, 0) == (Vec3 { x: 0i64, y: 0i64, z: 0i64 }));
                        assert(spec_add(spec_reflect(spec_normalize(r_in.dir), rec.normal),
                            spec_scale(rv, 0)) == spec_reflect(spec_normalize(r_in.dir), rec.normal));
                    }
                    lemma_reflect_range(spec_normalize(r_in.dir), rec.normal);
                    crate::fixed::lemma_fmul_units(rv.x as int, *fuzz as int, 1, 1);
                    crate::fixed::lemma_fmul_units(rv.y as int, *fuzz as int, 1, 1);
                    crate::fixed::lemma_fmul_units(rv.z as int, *fuzz as int, 1, 1);
                }
                let d = dot(&scattered_dir, &rec.normal);
                proof {
                    assert(unit_range(rv, 1) && scattered_dir == spec_add(
                        spec_reflect(spec_normalize(r_in.dir), rec.normal),
                        spec_scale(rv, *fuzz as int),
                    ));
                }
                if d > 0 {
                    Some((*albedo, Ray::new_timed(rec.p, scattered_dir, *r_in.time())))
                } else {
                    None
                }
            },
            Material::Dielectric { ir } => {
                let refraction_ratio = if rec.front_face {
                    fx_div_sat(SCALE, *ir)
                } else {
                    *ir
                };
                proof {
                    lemma_dielectric_ratio_range(*ir as int, rec.front_face);
                    lemma_normalize_unit(r_in.dir);
                    lemma_unit_in_range(spec_normalize(r_in.dir));
                    lemma_unit_in_range(rec.normal);
                }
                let unit = normalize(r_in.direction());
                let neg_unit = unit.neg();
                proof {
                    lemma_unit_in_range(spec_neg(spec_normalize(r_in.dir)));
                    lemma_dot_units(spec_neg(spec_normalize(r_in.dir)), rec.normal, 2, 2);
                }
                let mut cos_theta = dot(&neg_unit, &rec.normal);
                if cos_theta > SCALE {
                    cos_theta = SCALE;
                }
                proof {
                    crate::fixed::lemma_fmul_units(cos_theta as int, cos_theta as int, 12, 12);
                }
                let cos_sq = crate::fixed::fx_mul(cos_theta, cos_theta);
                proof {
                    assert(cos_theta as int * cos_theta as int >= 0) by (nonlinear_arith);
                    crate::fixed::lemma_tdiv_bounds(
                        cos_theta as int * cos_theta as int,
                        SCALE as int,
                    );
                }
                let sin_sq = if cos_sq < SCALE {
                    SCALE - cos_sq
                } else {
                    0
                };
                let sin_theta = crate::fixed::fx_sqrt(sin_sq);
                proof {
                    lemma_sin_theta_unit(sin_sq as int, sin_theta as int);
                    crate::fixed::lemma_fmul_units(
                        refraction_ratio as int,
                        sin_theta as int,
                        4,
                        2,
                    );
                }
                let cannot_refract = crate::fixed::fx_mul(refraction_ratio, sin_theta) > SCALE;
                let draw = rand_range(0, SCALE);
                let direction = if cannot_refract || Material::reflectance(
                    cos_theta,
                    refraction_ratio,
                ) > draw {
                    reflect(&unit, &rec.normal)
                } else {
                    refract(&unit, &rec.normal, refraction_ratio)
                };
                let scattered = Ray::new_timed(rec.p, direction, *r_in.time());
                Some((Vec3 { x: SCALE, y: SCALE, z: SCALE }, scattered))
            },
        }
    }
}

/// The refraction ratio a dielectric uses, by face orientation.
pub open spec fn spec_dielectric_ratio(ir: int, front_face: bool) -> int {
    if front_face {
        sat64(fdiv(SCALE as int, ir))
    } else {
        ir
    }
}

/// The ratio stays in the range the refraction routine accepts.
proof fn lemma_dielectric_ratio_range(ir: int, front_face: bool)
    requires
        SCALE / 4 <= ir <= 4 * SCALE,
    ensures
        0 < spec_dielectric_ratio(ir, front_face) <= 4 * SCALE,
{
    if front_face {
        let n = SCALE as int * SCALE as int;
        assert(n == 4294967296);
        crate::fixed::lemma_tdiv_bounds(n, ir);
        vstd::arithmetic::div_mod::lemma_div_is_ordered_by_denominator(n, 16384, ir);
        assert(4294967296int / 16384int == 262144int) by (nonlinear_arith);
        vstd::arithmetic::div_mod::lemma_div_non_zero(n, ir);
    }
}

/// Two units of headroom always fit the coordinate range.
proof fn lemma_unit_in_range(v: Vec3)
    requires
        unit_range(v, 2),
    ensures
        in_range(v),
{
}

/// The reflection of one near-unit vector about another stays within a
/// few dozen units, so the fuzzed sum is in coordinate range.
proof fn lemma_reflect_range(v: Vec3, n: Vec3)
    requires
        unit_range(v, 2),
        unit_range(n, 2),
    ensures
        unit_range(spec_reflect(v, n), 50),
{
    lemma_dot_units(v, n, 2, 2);
    let d = spec_dot(v, n);
    crate::fixed::lemma_fmul_units(d, 2 * SCALE, 12, 2);
    let k = sat64(crate::fixed::fmul(d, 2 * SCALE));
    crate::fixed::lemma_fmul_units(n.x as int, k, 2, 24);
    crate::fixed::lemma_fmul_units(n.y as int, k, 2, 24);
    crate::fixed::lemma_fmul_units(n.z as int, k, 2, 24);
}

/// The square root of a value at most one is at most one unit.
proof fn lemma_sin_theta_unit(sin_sq: int, sin_theta: int)
    requires
        0 <= sin_sq <= SCALE,
        sin_theta >= 0,
        sin_theta * sin_theta <= sin_sq * SCALE,
    ensures
        0 <= sin_theta <= 2 * SCALE,
{
    assert(sin_sq * SCALE <= 4294967296) by (nonlinear_arith)
        requires
            0 <= sin_sq <= 65536,
            SCALE == 65536,
    ;
    if sin_theta > 2 * SCALE {
        assert(sin_theta * sin_theta > 17179869184) by (nonlinear_arith)
            requires
                sin_theta > 131072,
        ;
    }
}

} // verus!
