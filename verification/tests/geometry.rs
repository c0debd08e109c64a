//! Tests of the scalar, vector, interval and bounding-box layers.

use raytrace::aabb::AABB;
use raytrace::fixed::{floor_div_rem, fx_div_sat, fx_mul, fx_sqrt, isqrt128, SCALE};
use raytrace::interval::Interval;
use raytrace::trig::{acos_fx, atan2_fx, cos_fx, sin_fx, HALF_PI_FX, PI_FX};
use raytrace::vec3::{cross, dot, normalize, reflect, Vec3};

const S: i64 = SCALE;

#[test]
fn aabb_union() {
    let a = AABB::new(
        Interval::new(0, S),
        Interval::new(0, S),
        Interval::new(0, S),
    );
    let b = AABB::new(
        Interval::new(S, 2 * S),
        Interval::new(S, 2 * S),
        Interval::new(S, 2 * S),
    );
    let union = AABB::new(
        Interval::new(0, 2 * S),
        Interval::new(0, 2 * S),
        Interval::new(0, 2 * S),
    );

    assert_eq!(union, AABB::union(&a, &b));
}

#[test]
fn aabb_union_contains_both() {
    let a = AABB::from_corners(Vec3::new(-S, -S, -S), Vec3::new(S, 0, 0));
    let b = AABB::from_corners(Vec3::new(0, 0, 0), Vec3::new(2 * S, S, S));
    let u = AABB::union(&a, &b);
    assert_eq!(u.x.min, -S);
    assert_eq!(u.x.max, 2 * S);
    assert_eq!(u.y.min, -S);
    assert_eq!(u.y.max, S);
    // the size on each axis is the outer span, nothing more
    assert_eq!(u.x.size(), 3 * S);
}

#[test]
fn interval_basics() {
    let i = Interval::new(-S, S);
    assert!(i.contains(S));
    assert!(i.contains(-S));
    assert!(!i.surrounds(S));
    assert!(i.surrounds(0));
    assert_eq!(i.clamp(3 * S), S);
    assert_eq!(i.clamp(-3 * S), -S);
    assert_eq!(i.clamp(5), 5);
    assert_eq!(i.size(), 2 * S);
    let e = Interval::empty();
    assert!(!e.contains(0));
    let u = Interval::union(&e, &i);
    assert_eq!(u, i);
}

#[test]
fn interval_expand() {
    let i = Interval::new(0, S);
    let e = i.expand(100);
    assert_eq!(e.min, -50);
    assert_eq!(e.max, S + 50);
    // an odd delta still grows the size by exactly delta
    let o = i.expand(7);
    assert_eq!(o.min, -3);
    assert_eq!(o.max, S + 4);
    assert_eq!(o.size(), i.size() + 7);
}

#[test]
fn padding_reaches_the_minimum_thickness() {
    // a flat box (zero thickness in z) pads to the full threshold
    let flat = AABB::from_corners(Vec3::new(0, 0, S), Vec3::new(S, S, S));
    let p = flat.padded();
    assert!(p.z.size() >= 7);
    assert!(p.z.min <= S && p.z.max >= S);
    // thick axes stay untouched
    assert_eq!(p.x, flat.x);
    assert_eq!(p.y, flat.y);
}

#[test]
fn fixed_arithmetic() {
    assert_eq!(fx_mul(2 * S, 3 * S), 6 * S);
    assert_eq!(fx_mul(-2 * S, 3 * S), -6 * S);
    assert_eq!(fx_div_sat(S, 2 * S), S / 2);
    assert_eq!(fx_sqrt(4 * S), 2 * S);
    assert_eq!(fx_sqrt(0), 0);
    assert_eq!(isqrt128(144), 12);
    assert_eq!(isqrt128(145), 12);
    let (q, r) = floor_div_rem(-5, 4);
    assert_eq!(q, -2);
    assert_eq!(r, 3);
}

#[test]
fn trig_anchor_points() {
    assert_eq!(sin_fx(0), 0);
    // the half-angle approximation is exact at the peak
    assert!(sin_fx(HALF_PI_FX) > 65000);
    assert!(cos_fx(0) > 65000);
    assert!(sin_fx(PI_FX).abs() < 200);
    assert_eq!(atan2_fx(0, S), 0);
    assert_eq!(acos_fx(0), HALF_PI_FX);
    assert_eq!(acos_fx(S), 0);
    // sine never escapes the unit range
    for k in -10i64..10 {
        let v = sin_fx(k * 40000);
        assert!(-S <= v && v <= S);
    }
}

#[test]
fn vector_algebra() {
    let a = Vec3::new(S, 0, 0);
    let b = Vec3::new(0, S, 0);
    assert_eq!(dot(&a, &b), 0);
    assert_eq!(dot(&a, &a), S);
    let c = cross(&a, &b);
    assert_eq!(c, Vec3::new(0, 0, S));
    let v = Vec3::new(3 * S, 4 * S, 0);
    assert_eq!(v.lenght_sqr(), 25 * S);
    assert_eq!(v.lenght(), 5 * S);
    let n = normalize(&v);
    assert_eq!(n.x, 3 * S * S / (5 * S));
    assert_eq!(n.y, 4 * S * S / (5 * S));
    assert_eq!(n.z, 0);
    assert!(Vec3::new(0, 0, 0).near_zero());
    assert!(!Vec3::new(1, 0, 0).near_zero());
}

#[test]
fn reflection_about_axis() {
    // reflecting a downward ray about the up normal flips the y part
    let v = Vec3::new(S, -S, 0);
    let n = Vec3::new(0, S, 0);
    let r = reflect(&v, &n);
    assert_eq!(r, Vec3::new(S, S, 0));
}

#[test]
fn slab_test_axis_aligned() {
    let bbox = AABB::from_corners(Vec3::new(-S, -S, -S), Vec3::new(S, S, S));
    let toward = raytrace::ray::Ray::new(Vec3::new(0, 0, -4 * S), Vec3::new(0, 0, S));
    let away = raytrace::ray::Ray::new(Vec3::new(0, 0, -4 * S), Vec3::new(0, 0, -S));
    let window = Interval::new(0, i64::MAX);
    assert!(bbox.hit(&toward, window));
    assert!(!bbox.hit(&away, window));
    // parallel ray outside the slab misses
    let parallel = raytrace::ray::Ray::new(Vec3::new(0, 3 * S, -4 * S), Vec3::new(0, 0, S));
    assert!(!bbox.hit(&parallel, window));
}

#[test]
fn random_vectors_in_contractual_ranges() {
    for _ in 0..32 {
        // random_range spans the whole requested box
        let b = Vec3::random_range(S, 3 * S);
        assert!(S <= b.x && b.x < 3 * S);
        assert!(S <= b.y && b.y < 3 * S);
        assert!(S <= b.z && b.z < 3 * S);
        let v = Vec3::random();
        assert!(0 <= v.x && v.x < S);
        assert!(0 <= v.y && v.y < S);
        assert!(0 <= v.z && v.z < S);
        let u = Vec3::random_unit_sphere();
        assert!(u.x.abs() <= S && u.y.abs() <= S && u.z.abs() <= S);
        let d = Vec3::random_unit_in_disk();
        assert_eq!(d.z, 0);
        assert!(d.lenght_sqr() < S);
        let h = Vec3::random_on_hemisphere(&Vec3::new(0, S, 0));
        assert!(dot(&h, &Vec3::new(0, S, 0)) >= 0);
    }
}
