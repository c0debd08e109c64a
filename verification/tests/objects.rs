//! Tests of the primitives, the list scan, the tree build and the
//! material and texture layers.

use std::sync::Arc;

use raytrace::fixed::SCALE;
use raytrace::hittable::bvh_node::BvhNode;
use raytrace::hittable::hittable_list::HittableList;
use raytrace::hittable::quad::Quad;
use raytrace::hittable::sphere::Sphere;
use raytrace::hittable::HittableObject;
use raytrace::interval::Interval;
use raytrace::material::Material;
use raytrace::perlin::Perlin;
use raytrace::ray::Ray;
use raytrace::rtw_image::RtwImage;
use raytrace::texture::TextureType;
use raytrace::vec3::Vec3;

const S: i64 = SCALE;

fn gray() -> Arc<Material> {
    Arc::new(Material::new_lambertian(Vec3::new(S / 2, S / 2, S / 2)))
}

#[test]
fn sphere_hit_from_outside() {
    let sph = Sphere::new(Vec3::new(0, 0, 0), S / 2, gray());
    let r = Ray::new(Vec3::new(0, 0, -2 * S), Vec3::new(0, 0, S));
    let rec = sph.hit(&r, Interval::new(66, i64::MAX)).expect("must hit");
    // front face at z = -0.5, reached at t = 1.5
    assert_eq!(rec.t, 3 * S / 2);
    assert_eq!(rec.p, Vec3::new(0, 0, -S / 2));
    assert!(rec.front_face);
    assert_eq!(rec.normal, Vec3::new(0, 0, -S));
}

#[test]
fn sphere_hit_from_inside() {
    // a ray that starts strictly inside must exit through the far side
    let sph = Sphere::new(Vec3::new(0, 0, 0), S / 2, gray());
    let r = Ray::new(Vec3::new(0, 0, 0), Vec3::new(0, 0, S));
    let rec = sph.hit(&r, Interval::new(66, i64::MAX)).expect("must exit");
    assert_eq!(rec.t, S / 2);
    assert!(!rec.front_face);
}

#[test]
fn sphere_does_not_refind_its_hit_point() {
    let sph = Sphere::new(Vec3::new(0, 0, 0), S / 2, gray());
    let r = Ray::new(Vec3::new(0, 0, -2 * S), Vec3::new(0, 0, S));
    let first = sph.hit(&r, Interval::new(66, i64::MAX)).unwrap();
    // restart at the hit point with the same direction and a window
    // starting above zero: only the far surface may answer
    let r2 = Ray::new(first.p, Vec3::new(0, 0, S));
    let second = sph.hit(&r2, Interval::new(66, i64::MAX)).unwrap();
    assert_eq!(second.t, S);
    assert_eq!(second.p, Vec3::new(0, 0, S / 2));
    assert!(second.p != first.p);
}

#[test]
fn sphere_miss() {
    let sph = Sphere::new(Vec3::new(0, 0, 0), S / 2, gray());
    let r = Ray::new(Vec3::new(0, 2 * S, -2 * S), Vec3::new(0, 0, S));
    assert!(sph.hit(&r, Interval::new(66, i64::MAX)).is_none());
}

#[test]
fn moving_sphere_normal_follows_the_center() {
    // at time 1 the center has moved to (2, 0, 0); the front face there
    // must carry the normal of the moved sphere, not of the start center
    let sph = Sphere::new_moving(
        Vec3::new(0, 0, 0),
        Vec3::new(2 * S, 0, 0),
        S / 2,
        gray(),
    );
    let r = Ray::new_timed(Vec3::new(2 * S, 0, -2 * S), Vec3::new(0, 0, S), S);
    let rec = sph.hit(&r, Interval::new(66, i64::MAX)).expect("must hit");
    assert_eq!(rec.t, 3 * S / 2);
    assert!(rec.front_face);
    assert_eq!(rec.normal, Vec3::new(0, 0, -S));
}

#[test]
fn skewed_quad_box_covers_all_corners() {
    // edges that pull in opposite directions: the single diagonal from Q
    // to Q+u+v spans no width, the corner box must still cover Q+u, Q+v
    let quad = Quad::new(
        Vec3::new(0, 0, 0),
        Vec3::new(2 * S, 0, 0),
        Vec3::new(-2 * S, 2 * S, 0),
        gray(),
    );
    let b = quad.bounding_box();
    assert!(b.x.min <= -2 * S && b.x.max >= 2 * S);
    assert!(b.y.min <= 0 && b.y.max >= 2 * S);
    // the flat z axis was padded to a usable slab
    assert!(b.z.size() >= 7);
}

#[test]
fn moving_sphere_center_interpolates() {
    let sph = Sphere::new_moving(
        Vec3::new(0, 0, 0),
        Vec3::new(S, 0, 0),
        S / 2,
        gray(),
    );
    // at time 0 the sphere is centered at the origin
    let r0 = Ray::new_timed(Vec3::new(0, 0, -2 * S), Vec3::new(0, 0, S), 0);
    assert!(sph.hit(&r0, Interval::new(66, i64::MAX)).is_some());
    // near time 1 it has moved one unit along x, so the old path misses
    let r1 = Ray::new_timed(Vec3::new(0, 0, -2 * S), Vec3::new(0, 0, S), S - 1);
    assert!(sph.hit(&r1, Interval::new(66, i64::MAX)).is_none());
}

#[test]
fn quad_centroid_hit() {
    let quad = Quad::new(
        Vec3::new(-S, -S, 0),
        Vec3::new(2 * S, 0, 0),
        Vec3::new(0, 2 * S, 0),
        gray(),
    );
    let r = Ray::new(Vec3::new(0, 0, -S), Vec3::new(0, 0, S));
    let rec = quad.hit(&r, Interval::new(66, i64::MAX)).expect("must hit");
    assert_eq!(rec.t, S);
    // the centroid maps to planar coordinates of exactly one half
    assert_eq!(rec.u, S / 2);
    assert_eq!(rec.v, S / 2);
    assert_eq!(rec.p, Vec3::new(0, 0, 0));
}

#[test]
fn quad_edge_points_miss() {
    // the interior test is strict: a ray at a corner reports a miss
    let quad = Quad::new(
        Vec3::new(-S, -S, 0),
        Vec3::new(2 * S, 0, 0),
        Vec3::new(0, 2 * S, 0),
        gray(),
    );
    let corner = Ray::new(Vec3::new(-S, -S, -S), Vec3::new(0, 0, S));
    assert!(quad.hit(&corner, Interval::new(66, i64::MAX)).is_none());
    let parallel = Ray::new(Vec3::new(0, 0, -S), Vec3::new(S, 0, 0));
    assert!(quad.hit(&parallel, Interval::new(66, i64::MAX)).is_none());
}

#[test]
fn list_scan_returns_nearest() {
    let mut world = HittableList::new();
    world.add(Sphere::new(Vec3::new(0, 0, 4 * S), S / 2, gray()));
    world.add(Sphere::new(Vec3::new(0, 0, 2 * S), S / 2, gray()));
    world.add(Sphere::new(Vec3::new(0, 0, 6 * S), S / 2, gray()));
    let r = Ray::new(Vec3::new(0, 0, 0), Vec3::new(0, 0, S));
    let rec = world.hit(&r, Interval::new(66, i64::MAX)).expect("must hit");
    // nearest front face: the sphere at z = 2 has its near side at 1.5
    assert_eq!(rec.t, 3 * S / 2);
}

#[test]
fn bvh_matches_list_scan() {
    let centers = [
        (0i64, 0i64, 4i64),
        (0, 0, 2),
        (0, 0, 6),
        (2, 0, 4),
        (-2, 0, 4),
        (0, 2, 4),
        (0, -2, 4),
    ];
    let mut list = HittableList::new();
    for (x, y, z) in centers {
        list.add(Sphere::new(Vec3::new(x * S, y * S, z * S), S / 2, gray()));
    }
    let tree = BvhNode::from_list(&mut list);
    let dirs = [
        (0i64, 0i64, S),
        (S / 4, 0, S),
        (0, S / 4, S),
        (-S / 4, -S / 4, S),
        (S, 0, 0),
    ];
    for (dx, dy, dz) in dirs {
        let r = Ray::new(Vec3::new(0, 0, 0), Vec3::new(dx, dy, dz));
        let from_list = list.hit(&r, Interval::new(66, i64::MAX));
        let from_tree = tree.hit(&r, Interval::new(66, i64::MAX));
        match (from_list, from_tree) {
            (Some(a), Some(b)) => assert_eq!(a.t, b.t),
            (None, None) => {}
            _ => panic!("tree and list disagree about hitting"),
        }
    }
}

#[test]
fn empty_list_never_hits() {
    let world = HittableList::new();
    let r = Ray::new(Vec3::new(0, 0, 0), Vec3::new(0, 0, S));
    assert!(world.hit(&r, Interval::new(66, i64::MAX)).is_none());
}

#[test]
fn coincident_spheres_agree_on_the_parameter() {
    // two identical objects: whichever is reported, the parameter is the
    // same, in the list and in the tree
    let mut list = HittableList::new();
    list.add(Sphere::new(Vec3::new(0, 0, 2 * S), S / 2, gray()));
    list.add(Sphere::new(Vec3::new(0, 0, 2 * S), S / 2, gray()));
    let r = Ray::new(Vec3::new(0, 0, 0), Vec3::new(0, 0, S));
    let a = list.hit(&r, Interval::new(66, i64::MAX)).unwrap();
    let tree = BvhNode::from_list(&mut list);
    let b = tree.hit(&r, Interval::new(66, i64::MAX)).unwrap();
    assert_eq!(a.t, b.t);
    assert_eq!(a.t, 3 * S / 2);
}

#[test]
fn list_from_and_len() {
    let sph = Sphere::new(Vec3::new(0, 0, 0), S, gray());
    let mut l = HittableList::from(sph);
    assert_eq!(l.len(), 1);
    l.add(Sphere::new(Vec3::new(0, 3 * S, 0), S, gray()));
    assert_eq!(l.len(), 2);
    l.clear();
    assert_eq!(l.len(), 0);
}

#[test]
fn lambertian_always_scatters() {
    let sph = Sphere::new(Vec3::new(0, 0, 0), S / 2, gray());
    let r = Ray::new(Vec3::new(0, 0, -2 * S), Vec3::new(0, 0, S));
    let rec = sph.hit(&r, Interval::new(66, i64::MAX)).unwrap();
    let (attenuation, scattered) = rec.mat.scatter(&r, &rec).expect("diffuse always scatters");
    assert_eq!(attenuation, Vec3::new(S / 2, S / 2, S / 2));
    assert_eq!(*scattered.origin(), rec.p);
    assert_eq!(*scattered.time(), 0);
}

#[test]
fn mirror_metal_reflects_or_absorbs() {
    let metal = Arc::new(Material::new_metal(Vec3::new(S, S, S), 0));
    let sph = Sphere::new(Vec3::new(0, 0, 0), S / 2, metal);
    let r = Ray::new(Vec3::new(0, 0, -2 * S), Vec3::new(0, 0, S));
    let rec = sph.hit(&r, Interval::new(66, i64::MAX)).unwrap();
    let (attenuation, scattered) = rec.mat.scatter(&r, &rec).expect("head-on reflection leaves");
    assert_eq!(attenuation, Vec3::new(S, S, S));
    // a perfect mirror reverses the head-on direction
    assert!(scattered.direction().z < 0);
}

#[test]
fn dielectric_always_scatters_white() {
    let glass = Arc::new(Material::new_dielectric(3 * S / 2));
    let sph = Sphere::new(Vec3::new(0, 0, 0), S / 2, glass);
    let r = Ray::new(Vec3::new(0, 0, -2 * S), Vec3::new(0, 0, S));
    let rec = sph.hit(&r, Interval::new(66, i64::MAX)).unwrap();
    let (attenuation, _scattered) = rec.mat.scatter(&r, &rec).expect("glass never absorbs");
    assert_eq!(attenuation, Vec3::new(S, S, S));
}

#[test]
fn solid_and_checker_textures() {
    let red = TextureType::new_solid(Vec3::new(S, 0, 0));
    assert_eq!(red.value(0, 0, &Vec3::new(0, 0, 0)), Vec3::new(S, 0, 0));
    let green = TextureType::solid_from_rgb(0, S, 0);
    let checker = TextureType::new_checker(
        S / 2,
        Arc::new(TextureType::new_solid(Vec3::new(S, 0, 0))),
        Arc::new(TextureType::new_solid(Vec3::new(0, S, 0))),
    );
    // squares of one half: (0.25, 0.25) is even, (0.75, 0.25) is odd
    assert_eq!(checker.value(S / 4, S / 4, &Vec3::new(0, 0, 0)), Vec3::new(S, 0, 0));
    assert_eq!(checker.value(3 * S / 4, S / 4, &Vec3::new(0, 0, 0)), Vec3::new(0, S, 0));
    assert_eq!(green.value(0, 0, &Vec3::new(0, 0, 0)), Vec3::new(0, S, 0));
}

#[test]
fn image_texture_looks_up_pixels() {
    // a 2 x 1 image: red texel then blue texel
    let data = vec![255u8, 0, 0, 0, 0, 255];
    let img = RtwImage::from_raw(2, 1, data).expect("well-formed buffer");
    assert_eq!(img.pixel_data(0, 0), [255, 0, 0]);
    assert_eq!(img.pixel_data(1, 0), [0, 0, 255]);
    // coordinates beyond the image clamp to the border
    assert_eq!(img.pixel_data(7, 9), [0, 0, 255]);
    let tex = TextureType::ImageTexture { image: img };
    // u = 0 with v = 1 addresses the first texel after the vertical flip
    assert_eq!(tex.value(0, S, &Vec3::new(0, 0, 0)), Vec3::new(S, 0, 0));
}

#[test]
fn image_rejects_mismatched_buffers() {
    assert!(RtwImage::from_raw(2, 1, vec![0u8; 5]).is_none());
    assert!(RtwImage::from_raw(0, 1, vec![]).is_none());
}

#[test]
fn perlin_noise_is_bounded_and_turbulence_nonnegative() {
    let p = Perlin::default();
    for k in 0..8i64 {
        let pt = Vec3::new(k * 30000, k * 17000, k * 5000);
        let _n = p.noise(&pt);
        assert!(p.turb(pt, 7) >= 0);
    }
    let marble = TextureType::new_noise(4 * S);
    let c = marble.value(0, 0, &Vec3::new(S / 3, S / 5, S / 7));
    assert!(0 <= c.x && c.x <= S);
    assert_eq!(c.x, c.y);
    assert_eq!(c.y, c.z);
}
