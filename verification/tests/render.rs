//! Tests of quantization and the radiance estimator.

use std::sync::Arc;

use raytrace::camera::Camera;
use raytrace::color::color_bytes;
use raytrace::fixed::SCALE;
use raytrace::hittable::hittable_list::HittableList;
use raytrace::hittable::sphere::Sphere;
use raytrace::hittable::HittableObject;
use raytrace::material::Material;
use raytrace::ray::Ray;
use raytrace::vec3::Vec3;

const S: i64 = SCALE;

fn gray() -> Arc<Material> {
    Arc::new(Material::new_lambertian(Vec3::new(S / 2, S / 2, S / 2)))
}

fn two_sphere_scene() -> HittableObject {
    let mut world = HittableList::new();
    world.add(Sphere::new(Vec3::new(0, 0, 0), S / 2, gray()));
    world.add(Sphere::new(Vec3::new(0, -1638400, 0), 1605632, gray()));
    HittableObject::HittableList(world)
}

#[test]
fn saturated_channel_writes_255() {
    // accumulated (1, 1, 1) at one sample: gamma 1, clamp 0.999, byte 255
    let bytes = color_bytes(&Vec3::new(S, S, S), 1);
    assert_eq!(bytes, [255, 255, 255]);
}

#[test]
fn channel_quantization_points() {
    assert_eq!(color_bytes(&Vec3::new(0, 0, 0), 1), [0, 0, 0]);
    // 0.25 averages then gammas to 0.5, quantizing to 127
    assert_eq!(color_bytes(&Vec3::new(S / 4, 0, 0), 1), [127, 0, 0]);
    // two samples of 0.5 average to 0.25
    assert_eq!(color_bytes(&Vec3::new(S / 2, 0, 0), 2), [127, 0, 0]);
    // negative accumulations flush to black
    assert_eq!(color_bytes(&Vec3::new(-S, 0, 0), 1), [0, 0, 0]);
}

#[test]
fn radiance_terminates_at_zero_depth() {
    let cam = Camera::default();
    let world = two_sphere_scene();
    let r = Ray::new(Vec3::new(0, 0, -2 * S), Vec3::new(0, 0, S));
    assert_eq!(cam.ray_color(&r, 0, &world), Vec3::new(0, 0, 0));
    assert_eq!(cam.ray_color(&r, -3, &world), Vec3::new(0, 0, 0));
}

#[test]
fn missing_rays_return_configured_background() {
    let mut cam = Camera::default();
    cam.background = Some(Vec3::new(S / 8, S / 4, S / 2));
    let world = two_sphere_scene();
    // four corner-ish directions that miss both spheres
    let dirs = [
        Vec3::new(-S, S, -S),
        Vec3::new(S, S, -S),
        Vec3::new(-S, S, S),
        Vec3::new(S, S, S),
    ];
    for d in dirs {
        let r = Ray::new(Vec3::new(0, 2 * S, -4 * S), d);
        assert_eq!(cam.ray_color(&r, 4, &world), Vec3::new(S / 8, S / 4, S / 2));
    }
}

#[test]
fn missing_rays_shade_the_gradient() {
    let cam = Camera::default();
    let world = two_sphere_scene();
    // straight up: the gradient reaches its blue end exactly
    let r = Ray::new(Vec3::new(0, 2 * S, -4 * S), Vec3::new(0, S, 0));
    assert_eq!(cam.ray_color(&r, 4, &world), Vec3::new(32768, 45875, 65536));
}

#[test]
fn hitting_rays_attenuate() {
    let cam = Camera::default();
    let world = two_sphere_scene();
    let r = Ray::new(Vec3::new(0, 0, -2 * S), Vec3::new(0, 0, S));
    let c = cam.ray_color(&r, 8, &world);
    // a half-gray diffuse bounce can never return more than half white
    assert!(c.x <= S / 2 + 1);
    assert!(c.y <= S / 2 + 1);
    assert!(c.z <= S / 2 + 1);
}

#[test]
fn camera_initialize_derives_viewport() {
    let mut cam = Camera::default();
    cam.aspect_ratio = 2 * S;
    cam.image_width = 200;
    cam.initialize();
    assert_eq!(cam.image_height, 100);
    assert_eq!(cam.center, cam.lookfrom);
    // looking from -z toward the origin: w points along -z
    assert_eq!(cam.w, Vec3::new(0, 0, -S));
    // the pixel steps move along the image axes
    assert!(cam.pixel_delta_u.x != 0);
    assert!(cam.pixel_delta_v.y < 0);
}

#[test]
fn render_pixel_accumulates_samples() {
    let mut cam = Camera::default();
    cam.image_width = 4;
    cam.samples_per_pixel = 2;
    cam.max_depth = 2;
    cam.background = Some(Vec3::new(S / 4, S / 4, S / 4));
    cam.initialize();
    let world = two_sphere_scene();
    let c = cam.render_pixel(0, 0, &world);
    // two samples of a quarter-gray background at most
    assert!(0 <= c.x && c.x <= S);
    let mut cam0 = Camera::default();
    cam0.samples_per_pixel = 0;
    cam0.initialize();
    assert_eq!(cam0.render_pixel(0, 0, &world), Vec3::new(0, 0, 0));
    // a spent bounce budget blacks out every sample
    let mut cam1 = Camera::default();
    cam1.max_depth = 0;
    cam1.initialize();
    assert_eq!(cam1.render_pixel(0, 0, &world), Vec3::new(0, 0, 0));
}

#[test]
fn primary_rays_stay_in_range() {
    let mut cam = Camera::default();
    cam.image_width = 16;
    cam.initialize();
    for i in 0..4 {
        for j in 0..4 {
            let r = cam.get_ray(i, j);
            assert!(r.orig.x.abs() <= raytrace::fixed::COORD_MAX);
            assert!(r.dir.z.abs() <= raytrace::fixed::COORD_MAX);
            assert!(0 <= r.tm && r.tm < S);
        }
    }
}
