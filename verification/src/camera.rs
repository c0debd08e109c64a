//! Render configuration, primary-ray generation and the recursive
//! radiance estimator.
//!
//! The camera derives its viewport basis once in `initialize`; a pixel's
//! color is the average of jittered samples, each following a scattered
//! ray path of bounded depth.

use vstd::prelude::*;

use crate::color::Color;
use crate::fixed::{fdiv, fmul_sat, sat64, sat_to_i64, tdiv, tdiv128, COORD_MAX, SCALE};
use crate::hittable::{lemma_hit_mat_wf, spec_hit, wf_hittable, HittableObject};
use crate::interval::Interval;
use crate::ray::Ray;
use crate::rng::rand_range;
use crate::trig::{spec_tan, tan_fx, PI_FX};
use crate::vec3::{
    cross, in_range, lemma_cross_bound, lemma_normalize_unit, normalize, spec_add, spec_cross, spec_mul_vec,
    spec_div_scalar, spec_neg, spec_normalize, spec_scale, spec_sub, unit_range, vec_bounded,
    Point3, Vec3,
};

verus! {

/// Lower bound of the search interval for scattered rays, avoiding
/// self-intersection at the hit point.
pub const SHADOW_EPS: i64 = 66;

/// Cap on the tangent of the half field-of-view, a fixed-point headroom
/// limit.
pub const TAN_CAP: i64 = 524288;

pub struct Camera {
    pub aspect_ratio: i64,
    pub image_width: i32,
    pub samples_per_pixel: i32,
    pub max_depth: i32,
    pub vfov: i64,
    pub lookfrom: Point3,
    pub lookat: Point3,
    pub vup: Vec3,
    pub defocus_angle: i64,
    pub focus_dist: i64,
    pub background: Option<Color>,
    pub image_height: i32,
    pub center: Point3,
    pub pixel00_loc: Point3,
    pub pixel_delta_u: Vec3,
    pub pixel_delta_v: Vec3,
    pub u: Vec3,
    pub v: Vec3,
    pub w: Vec3,
    pub defocus_disk_u: Vec3,
    pub defocus_disk_v: Vec3,
}

/// Bounds under which `initialize` is meaningful: positions in half the
/// coordinate range, a near-unit up vector, positive aspect and focus.
pub open spec fn camera_config_wf(c: Camera) -> bool {
    &&& vec_bounded(c.lookfrom, COORD_MAX / 2)
    &&& vec_bounded(c.lookat, COORD_MAX / 2)
    &&& unit_range(c.vup, 16)
    &&& c.aspect_ratio >= 1024
    &&& 1 <= c.image_width
    &&& 0 <= c.vfov <= PI_FX
    &&& 0 < c.focus_dist <= COORD_MAX / 4
    &&& 0 <= c.defocus_angle <= PI_FX
    &&& 0 <= c.samples_per_pixel
    &&& 0 <= c.max_depth
}

/// The tangent clamped into fixed-point headroom.
pub open spec fn spec_tan_capped(x: int) -> int {
    let t = spec_tan(x);
    if t < 0 {
        0
    } else if t > TAN_CAP {
        TAN_CAP as int
    } else {
        t
    }
}

/// Clamp a scalar into the `i32` range (the image height is an `i32`).
pub open spec fn sat32(n: int) -> int {
    if n > i32::MAX {
        i32::MAX as int
    } else if n < 1 {
        1
    } else {
        n
    }
}

/// The derived fields `initialize` computes from the configuration.
pub open spec fn spec_initialize(c: Camera) -> Camera {
    let image_height = sat32(tdiv(c.image_width * SCALE, c.aspect_ratio as int));
    let center = c.lookfrom;
    let h = spec_tan_capped(tdiv(c.vfov as int, 2));
    let viewport_height = fmul_sat(2 * h, c.focus_dist as int);
    let ratio = sat64(fdiv(c.image_width * SCALE, image_height * SCALE));
    let viewport_width = fmul_sat(viewport_height, ratio);
    let w = spec_normalize(spec_sub(c.lookfrom, c.lookat));
    let u = spec_normalize(spec_cross(c.vup, w));
    let v = spec_cross(w, u);
    let viewport_u = spec_scale(u, viewport_width);
    let viewport_v = spec_scale(spec_neg(v), viewport_height);
    let pixel_delta_u = spec_div_scalar(viewport_u, c.image_width * SCALE);
    let pixel_delta_v = spec_div_scalar(viewport_v, image_height * SCALE);
    let upper_left = spec_sub(
        spec_sub(
            spec_sub(center, spec_scale(w, c.focus_dist as int)),
            spec_div_scalar(viewport_u, 2 * SCALE),
        ),
        spec_div_scalar(viewport_v, 2 * SCALE),
    );
    let pixel00_loc = spec_add(
        upper_left,
        spec_scale(spec_add(pixel_delta_u, pixel_delta_v), SCALE / 2),
    );
    let defocus_radius = fmul_sat(
        c.focus_dist as int,
        spec_tan_capped(tdiv(c.defocus_angle as int, 2)),
    );
    let defocus_disk_u = spec_scale(u, defocus_radius);
    let defocus_disk_v = spec_scale(v, defocus_radius);
    Camera {
        image_height: image_height as i32,
        center,
        pixel00_loc,
        pixel_delta_u,
        pixel_delta_v,
        u,
        v,
        w,
        defocus_disk_u,
        defocus_disk_v,
        ..c
    }
}

/// The primary ray for given sub-pixel and lens draws, before the range
/// guard.
pub open spec fn spec_primary_ray(
    c: Camera,
    i: int,
    j: int,
    px: int,
    py: int,
    disk: Vec3,
    tm: int,
) -> Ray {
    let pixel_center = spec_add(
        c.pixel00_loc,
        spec_add(
            spec_scale(c.pixel_delta_u, i * SCALE),
            spec_scale(c.pixel_delta_v, j * SCALE),
        ),
    );
    let pixel_sample = spec_add(
        pixel_center,
        spec_add(spec_scale(c.pixel_delta_u, px), spec_scale(c.pixel_delta_v, py)),
    );
    let origin = if c.defocus_angle <= 0 {
        c.center
    } else {
        spec_add(
            c.center,
            spec_add(
                spec_scale(c.defocus_disk_u, disk.x as int),
                spec_scale(c.defocus_disk_v, disk.y as int),
            ),
        )
    };
    Ray { orig: origin, dir: spec_sub(pixel_sample, origin), tm: tm as i64 }
}

/// Rays whose coordinates left the fixed-point range degrade to a
/// canonical ray so that tracing stays within bounds.
pub open spec fn spec_ray_guard(r: Ray) -> Ray {
    if in_range(r.orig) && in_range(r.dir) {
        r
    } else {
        Ray { orig: Vec3 { x: 0, y: 0, z: 0 }, dir: Vec3 { x: 0, y: 0, z: (-SCALE) as i64 }, tm: r.tm }
    }
}

/// A primary ray the camera can produce for pixel `(i, j)`: built from
/// some admissible sub-pixel, lens and time draws, then range-guarded.
pub open spec fn admissible_primary_ray(c: Camera, i: int, j: int, r: Ray) -> bool {
    exists|px: int, py: int, disk: Vec3, tm: int|
        -SCALE / 2 <= px < SCALE / 2 && -SCALE / 2 <= py < SCALE / 2 && 0 <= tm < SCALE
            && crate::vec3::spec_lenght_sqr(disk) < SCALE && disk.z == 0 && r
            == #[trigger] spec_ray_guard(spec_primary_ray(c, i, j, px, py, disk, tm))
}

/// What one sample must satisfy: its ray is traceable, a spent bounce
/// budget gives black, and a scene miss gives the background.
pub open spec fn spec_sample_ok(c: Camera, world: HittableObject, r: Ray, col: Color) -> bool {
    &&& in_range(r.orig)
    &&& in_range(r.dir)
    &&& 0 <= r.tm < SCALE
    &&& (c.max_depth <= 0 ==> col == (Vec3 { x: 0i64, y: 0i64, z: 0i64 }))
    &&& (c.max_depth > 0 && spec_hit(world, r, Interval { min: SHADOW_EPS, max: i64::MAX })
        is None ==> col == spec_background(c, r))
}

/// The saturated componentwise sum of a sample sequence.
pub open spec fn spec_color_sum(s: Seq<Color>) -> Color
    decreases s.len(),
{
    if s.len() == 0 {
        Vec3 { x: 0, y: 0, z: 0 }
    } else {
        spec_add(spec_color_sum(s.drop_last()), s.last())
    }
}

/// A pixel's accumulated color: one admissible, well-behaved sample per
/// configured draw, summed.
pub open spec fn spec_pixel_samples(
    c: Camera,
    world: HittableObject,
    i: int,
    j: int,
    rays: Seq<Ray>,
    cols: Seq<Color>,
    out: Color,
) -> bool {
    &&& rays.len() == (if c.samples_per_pixel >= 0 {
        c.samples_per_pixel as int
    } else {
        0
    })
    &&& cols.len() == rays.len()
    &&& out == spec_color_sum(cols)
    &&& forall|k: int|
        0 <= k < rays.len() ==> admissible_primary_ray(c, i, j, #[trigger] rays[k])
            && spec_sample_ok(c, world, rays[k], cols[k])
}

/// What a ray that escapes the scene contributes: the configured
/// background, or the vertical white-to-blue gradient.
pub open spec fn spec_background(c: Camera, r: Ray) -> Color {
    match c.background {
        Option::Some(bg) => bg,
        Option::None => {
            let unit = spec_normalize(r.dir);
            let a = tdiv(unit.y + SCALE, 2);
            spec_add(
                spec_scale(Vec3 { x: SCALE, y: SCALE, z: SCALE }, SCALE - a),
                spec_scale(Vec3 { x: 32768, y: 45875, z: 65536 }, a),
            )
        },
    }
}

impl Camera {
    pub fn default() -> (c: Camera)
        ensures
            camera_config_wf(c),
            c.aspect_ratio == SCALE,
            c.image_width == 100,
            c.samples_per_pixel == 10,
            c.max_depth == 10,
            c.background is None,
    {
        Camera {
            aspect_ratio: SCALE,
            image_width: 100,
            samples_per_pixel: 10,
            image_height: 100,
            max_depth: 10,
            vfov: crate::trig::HALF_PI_FX,
            lookfrom: Vec3 { x: 0, y: 0, z: -SCALE },
            lookat: Vec3 { x: 0, y: 0, z: 0 },
            vup: Vec3 { x: 0, y: SCALE, z: 0 },
            defocus_angle: 0,
            focus_dist: 10 * SCALE,
            background: None,
            center: Vec3 { x: 0, y: 0, z: 0 },
            pixel00_loc: Vec3 { x: 0, y: 0, z: 0 },
            pixel_delta_u: Vec3 { x: 0, y: 0, z: 0 },
            pixel_delta_v: Vec3 { x: 0, y: 0, z: 0 },
            u: Vec3 { x: 0, y: 0, z: 0 },
            v: Vec3 { x: 0, y: 0, z: 0 },
            w: Vec3 { x: 0, y: 0, z: 0 },
            defocus_disk_u: Vec3 { x: 0, y: 0, z: 0 },
            defocus_disk_v: Vec3 { x: 0, y: 0, z: 0 },
        }
    }

    /// Derive the viewport basis, pixel steps and defocus disk from the
    /// configuration.
    pub fn initialize(&mut self)
        requires
            camera_config_wf(*old(self)),
        ensures
            *final(self) == spec_initialize(*old(self)),
            camera_config_wf(*final(self)),
            final(self).image_height >= 1,
    {
        proof {
            crate::fixed::lemma_tdiv_bounds(
                self.image_width as int * SCALE as int,
                self.aspect_ratio as int,
            );
        }
        let ih0 = tdiv128(
            (self.image_width as i128) * (SCALE as i128),
            self.aspect_ratio as i128,
        );
        let image_height: i32 = if ih0 > i32::MAX as i128 {
            i32::MAX
        } else if ih0 < 1 {
            1
        } else {
            ih0 as i32
        };
        self.image_height = image_height;
        self.center = self.lookfrom;
        proof {
            crate::fixed::lemma_tdiv_bounds(self.vfov as int, 2);
            crate::fixed::lemma_tdiv_bounds(self.defocus_angle as int, 2);
        }
        let h = tan_capped(tdiv128(self.vfov as i128, 2) as i64);
        let viewport_height = crate::fixed::fx_mul_sat(2 * h, self.focus_dist);
        let ratio = crate::fixed::fx_div_sat(
            self.image_width as i64 * SCALE,
            image_height as i64 * SCALE,
        );
        let viewport_width = crate::fixed::fx_mul_sat(viewport_height, ratio);
        proof {
            lemma_normalize_unit(spec_sub(self.lookfrom, self.lookat));
            lemma_cross_bound(self.vup, spec_normalize(spec_sub(self.lookfrom, self.lookat)), 1048576, 131072);
        }
        self.w = normalize(&self.lookfrom.sub(&self.lookat));
        self.u = normalize(&cross(&self.vup, &self.w));
        proof {
            lemma_normalize_unit(spec_cross(self.vup, self.w));
            lemma_cross_bound(self.w, self.u, 131072, 131072);
        }
        self.v = cross(&self.w, &self.u);
        let viewport_u = self.u.scale(viewport_width);
        let viewport_v = self.v.neg().scale(viewport_height);
        self.pixel_delta_u = viewport_u.div_scalar(self.image_width as i64 * SCALE);
        self.pixel_delta_v = viewport_v.div_scalar(image_height as i64 * SCALE);
        let viewport_upper_left = self
            .center
            .sub(&self.w.scale(self.focus_dist))
            .sub(&viewport_u.div_scalar(2 * SCALE))
            .sub(&viewport_v.div_scalar(2 * SCALE));
        self.pixel00_loc = viewport_upper_left.add(
            &self.pixel_delta_u.add(&self.pixel_delta_v).scale(SCALE / 2),
        );
        let defocus_radius = crate::fixed::fx_mul_sat(
            self.focus_dist,
            tan_capped(tdiv128(self.defocus_angle as i128, 2) as i64),
        );
        self.defocus_disk_u = self.u.scale(defocus_radius);
        self.defocus_disk_v = self.v.scale(defocus_radius);
    }

    /// A jittered primary ray through pixel `(i, j)`: random sub-pixel
    /// offset, optional defocus-disk origin, random time in `[0, 1)`.
    pub fn get_ray(&self, i: i32, j: i32) -> (r: Ray)
        ensures
            in_range(r.orig),
            in_range(r.dir),
            0 <= r.tm < SCALE,
            admissible_primary_ray(*self, i as int, j as int, r),
    {
        let px = rand_range(-SCALE / 2, SCALE / 2);
        let py = rand_range(-SCALE / 2, SCALE / 2);
        let disk = Vec3::random_unit_in_disk();
        let tm = rand_range(0, SCALE);
        proof {
            crate::fixed::lemma_abs_mul_bound(i as int, SCALE as int, 0x80000000, 65536);
            crate::fixed::lemma_abs_mul_bound(j as int, SCALE as int, 0x80000000, 65536);
        }
        let pixel_center = self.pixel00_loc.add(
            &self.pixel_delta_u.scale(sat_to_i64((i as i128) * (SCALE as i128))).add(
                &self.pixel_delta_v.scale(sat_to_i64((j as i128) * (SCALE as i128))),
            ),
        );
        let pixel_sample = pixel_center.add(
            &self.pixel_delta_u.scale(px).add(&self.pixel_delta_v.scale(py)),
        );
        let origin = if self.defocus_angle <= 0 {
            self.center
        } else {
            self.center.add(
                &self.defocus_disk_u.scale(disk.x).add(&self.defocus_disk_v.scale(disk.y)),
            )
        };
        let ray0 = Ray::new_timed(origin, pixel_sample.sub(&origin), tm);
        let guarded = if in_range_exec(&ray0.orig) && in_range_exec(&ray0.dir) {
            ray0
        } else {
            Ray::new_timed(Vec3::zero(), Vec3 { x: 0, y: 0, z: -SCALE }, tm)
        };
        proof {
            assert(i as int * SCALE as int == sat64(i as int * SCALE as int));
            assert(j as int * SCALE as int == sat64(j as int * SCALE as int));
            assert(guarded == spec_ray_guard(
                spec_primary_ray(*self, i as int, j as int, px as int, py as int, disk, tm as int),
            ));
        }
        guarded
    }

    /// The radiance carried back along a ray: black once the bounce
    /// budget is spent, the background on a miss, and the scattered
    /// contribution attenuated by the surface color on a hit.
    pub fn ray_color(&self, r: &Ray, depth: i32, world: &HittableObject) -> (c: Color)
        requires
            wf_hittable(*world),
            in_range(r.orig),
            in_range(r.dir),
            0 <= r.tm <= SCALE,
        ensures
            depth <= 0 ==> c == (Vec3 { x: 0i64, y: 0i64, z: 0i64 }),
            depth > 0 && spec_hit(
                *world,
                *r,
                Interval { min: SHADOW_EPS, max: i64::MAX },
            ) is None ==> c == spec_background(*self, *r),
            depth > 0 ==> (spec_hit(
                *world,
                *r,
                Interval { min: SHADOW_EPS, max: i64::MAX },
            ) matches Option::Some(rec) ==> (c == (Vec3 { x: 0i64, y: 0i64, z: 0i64 })
                || exists|bounce: Color|
                c == #[trigger] spec_mul_vec(
                    crate::material::spec_scatter_attenuation(*rec.mat, rec),
                    bounce,
                ))),
        decreases depth,
    {
        if depth <= 0 {
            return Vec3::zero();
        }
        match world.hit(r, Interval::new(SHADOW_EPS, Ray::infinity())) {
            Some(rec) => {
                proof {
                    lemma_hit_mat_wf(*world, *r, Interval { min: SHADOW_EPS, max: i64::MAX });
                }
                if rec.normal.x < -2 * SCALE || rec.normal.x > 2 * SCALE || rec.normal.y < -2
                    * SCALE || rec.normal.y > 2 * SCALE || rec.normal.z < -2 * SCALE
                    || rec.normal.z > 2 * SCALE {
                    // a degenerate surface normal: treat as absorbed
                    return Vec3::zero();
                }
                match rec.mat.scatter(r, &rec) {
                    Some((attenuation, scattered)) => {
                        if in_range_exec(scattered.origin()) && in_range_exec(
                            scattered.direction(),
                        ) {
                            let bounced = self.ray_color(&scattered, depth - 1, world);
                            let out = attenuation.mul_vec(&bounced);
                            proof {
                                let rec0 = spec_hit(
                                    *world,
                                    *r,
                                    Interval { min: SHADOW_EPS, max: i64::MAX },
                                )->Some_0;
                                assert(out == spec_mul_vec(
                                    crate::material::spec_scatter_attenuation(*rec0.mat, rec0),
                                    bounced,
                                ));
                            }
                            out
                        } else {
                            // the scattered ray left the coordinate range
                            Vec3::zero()
                        }
                    },
                    None => Vec3::zero(),
                }
            },
            None => {
                match self.background {
                    Some(bg) => bg,
                    None => {
                        let unit = normalize(r.direction());
                        let a = tdiv128((unit.y as i128) + (SCALE as i128), 2) as i64;
                        proof {
                            lemma_normalize_unit(r.dir);
                            crate::fixed::lemma_tdiv_bounds(unit.y as int + SCALE as int, 2);
                        }
                        let white = Vec3 { x: SCALE, y: SCALE, z: SCALE };
                        let blue = Vec3 { x: 32768, y: 45875, z: 65536 };
                        white.scale(sat_to_i64(SCALE as i128 - a as i128)).add(&blue.scale(a))
                    },
                }
            },
        }
    }

    /// Accumulate the configured number of independent samples for pixel
    /// `(i, j)`: the result is the saturated sum of one admissible sample
    /// per draw.
    pub fn render_pixel(&self, i: i32, j: i32, world: &HittableObject) -> (c: Color)
        requires
            wf_hittable(*world),
        ensures
            self.samples_per_pixel <= 0 ==> c == (Vec3 { x: 0i64, y: 0i64, z: 0i64 }),
            self.max_depth <= 0 ==> c == (Vec3 { x: 0i64, y: 0i64, z: 0i64 }),
            exists|rays: Seq<Ray>, cols: Seq<Color>|
                #[trigger] spec_pixel_samples(*self, *world, i as int, j as int, rays, cols, c),
    {
        let mut pixel_color = Vec3::zero();
        let mut s: i32 = 0;
        let ghost mut rays: Seq<Ray> = Seq::empty();
        let ghost mut cols: Seq<Color> = Seq::empty();
        while s < self.samples_per_pixel
            invariant
                0 <= s,
                s <= self.samples_per_pixel || s == 0,
                rays.len() == s as int,
                cols.len() == s as int,
                pixel_color == spec_color_sum(cols),
                self.max_depth <= 0 ==> pixel_color == (Vec3 { x: 0i64, y: 0i64, z: 0i64 }),
                forall|k: int|
                    0 <= k < rays.len() ==> admissible_primary_ray(
                        *self,
                        i as int,
                        j as int,
                        #[trigger] rays[k],
                    ) && spec_sample_ok(*self, *world, rays[k], cols[k]),
                wf_hittable(*world),
            decreases self.samples_per_pixel - s,
    {
            let r = self.get_ray(i, j);
            let sample = self.ray_color(&r, self.max_depth, world);
            proof {
                let prev_cols = cols;
                rays = rays.push(r);
                cols = cols.push(sample);
                assert(cols.drop_last() =~= prev_cols);
                assert(cols.last() == sample);
            }
            pixel_color = pixel_color.add(&sample);
            s = s + 1;
        }
        proof {
            assert(spec_pixel_samples(
                *self,
                *world,
                i as int,
                j as int,
                rays,
                cols,
                pixel_color,
            ));
        }
        pixel_color
    }
}

/// The tangent of an angle, clamped into `[0, TAN_CAP]`.
fn tan_capped(x: i64) -> (r: i64)
    requires
        0 <= x <= PI_FX,
    ensures
        r as int == spec_tan_capped(x as int),
        0 <= r <= TAN_CAP,
{
    let t = tan_fx(x);
    if t < 0 {
        0
    } else if t > TAN_CAP {
        TAN_CAP
    } else {
        t
    }
}

/// Runtime coordinate-range test matching `in_range`.
fn in_range_exec(v: &Vec3) -> (r: bool)
    ensures
        r == in_range(*v),
{
    -COORD_MAX <= v.x && v.x <= COORD_MAX && -COORD_MAX <= v.y && v.y <= COORD_MAX && -COORD_MAX
        <= v.z && v.z <= COORD_MAX
}

} // verus!
