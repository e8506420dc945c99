use raytrace::aabb::{optional_surrounding_box, surrounding_box, Aabb};
use raytrace::hitable::{hit_sphere, Hitable, MovingSphere, Sphere};
use raytrace::ray::Ray;
use raytrace::scalar::{Scalar, FRAC};
use raytrace::vec3::Vec3;

fn s(x: f64) -> Scalar {
    Scalar::from_raw((x * FRAC as f64) as i64)
}

fn v(x: f64, y: f64, z: f64) -> Vec3 {
    Vec3::new(s(x), s(y), s(z))
}

fn unit_box() -> Aabb {
    Aabb { min: v(-1.0, -1.0, -1.0), max: v(1.0, 1.0, 1.0) }
}

#[test]
fn aabb_accepts_ray_through_interior() {
    // An axis-aligned direction: two zero components exercise the
    // division-by-zero slab semantics on the other axes.
    let r = Ray { origin: v(0.0, 0.0, 5.0), direction: v(0.0, 0.0, -1.0), time: s(0.0) };
    assert!(unit_box().hit(&r, s(0.01), Scalar::max_value()));
    let diag = Ray { origin: v(-5.0, -5.0, -5.0), direction: v(1.0, 1.0, 1.0), time: s(0.0) };
    assert!(unit_box().hit(&diag, s(0.01), Scalar::max_value()));
}

#[test]
fn aabb_rejects_ray_missing_entirely() {
    // Parallel to the box on z, but displaced outside the x/y slabs.
    let r = Ray { origin: v(5.0, 5.0, 5.0), direction: v(0.0, 0.0, -1.0), time: s(0.0) };
    assert!(!unit_box().hit(&r, s(0.01), Scalar::max_value()));
    // Pointing away from the box.
    let away = Ray { origin: v(0.0, 0.0, 5.0), direction: v(0.0, 0.0, 1.0), time: s(0.0) };
    assert!(!away.direction.x.gt(Scalar::zero()));
    assert!(!unit_box().hit(&away, s(0.01), Scalar::max_value()));
}

#[test]
fn surrounding_box_contains_both_corners() {
    let a = Aabb { min: v(-1.0, 0.0, 2.0), max: v(1.0, 3.0, 4.0) };
    let b = Aabb { min: v(-2.0, 1.0, 3.0), max: v(0.0, 2.0, 5.0) };
    let u = surrounding_box(&a, &b);
    assert_eq!(u.min, v(-2.0, 0.0, 2.0));
    assert_eq!(u.max, v(1.0, 3.0, 5.0));
    for bx in [a, b] {
        assert!(!u.min.x.gt(bx.min.x));
        assert!(!u.min.y.gt(bx.min.y));
        assert!(!u.min.z.gt(bx.min.z));
        assert!(!bx.max.x.gt(u.max.x));
        assert!(!bx.max.y.gt(u.max.y));
        assert!(!bx.max.z.gt(u.max.z));
    }
}

#[test]
fn optional_surrounding_box_cases() {
    let a = Aabb { min: v(-1.0, -1.0, -1.0), max: v(1.0, 1.0, 1.0) };
    assert!(optional_surrounding_box(None, None).is_none());
    let only_left = optional_surrounding_box(Some(a), None).unwrap();
    assert_eq!(only_left.min, a.min);
    assert_eq!(only_left.max, a.max);
    let only_right = optional_surrounding_box(None, Some(a)).unwrap();
    assert_eq!(only_right.min, a.min);
    assert_eq!(only_right.max, a.max);
}

#[test]
fn sphere_hit_unit_sphere_head_on() {
    // A ray from (0,0,5) along -z at a unit sphere at the origin hits
    // at t = 4 with normal (0,0,1).
    let r = Ray { origin: v(0.0, 0.0, 5.0), direction: v(0.0, 0.0, -1.0), time: s(0.0) };
    let rec = hit_sphere(v(0.0, 0.0, 0.0), s(1.0), 0, &r, s(0.01), Scalar::max_value())
        .expect("the ray must hit");
    assert_eq!(rec.t.raw(), 4 * FRAC);
    assert_eq!(rec.point, v(0.0, 0.0, 1.0));
    assert_eq!(rec.normal, v(0.0, 0.0, 1.0));
    assert_eq!(rec.material, 0);
}

#[test]
fn sphere_hit_misses_and_second_root() {
    let miss = Ray { origin: v(0.0, 5.0, 5.0), direction: v(0.0, 0.0, -1.0), time: s(0.0) };
    assert!(hit_sphere(v(0.0, 0.0, 0.0), s(1.0), 0, &miss, s(0.01), Scalar::max_value())
        .is_none());
    // From inside the sphere only the larger root is in range.
    let inside = Ray { origin: v(0.0, 0.0, 0.0), direction: v(0.0, 0.0, -1.0), time: s(0.0) };
    let rec = hit_sphere(v(0.0, 0.0, 0.0), s(1.0), 0, &inside, s(0.01), Scalar::max_value())
        .expect("the inside ray must hit the far wall");
    assert_eq!(rec.t.raw(), FRAC);
    assert_eq!(rec.point, v(0.0, 0.0, -1.0));
}

#[test]
fn sphere_variant_hit_matches_free_function() {
    let r = Ray { origin: v(0.0, 0.0, 5.0), direction: v(0.0, 0.0, -1.0), time: s(0.0) };
    let sp = Hitable::Sphere(Sphere::new(v(0.0, 0.0, 0.0), s(1.0), 3));
    let rec = sp.hit(&r, s(0.01), Scalar::max_value()).expect("must hit");
    assert_eq!(rec.t.raw(), 4 * FRAC);
    assert_eq!(rec.material, 3);
    let bb = sp.bounding_box(s(0.0), s(1.0)).expect("a sphere always has a box");
    assert_eq!(bb.min, v(-1.0, -1.0, -1.0));
    assert_eq!(bb.max, v(1.0, 1.0, 1.0));
}

#[test]
fn moving_sphere_interpolates_center() {
    let ms = MovingSphere::new(
        v(0.0, 0.0, 0.0),
        v(2.0, 0.0, 0.0),
        s(0.0),
        s(1.0),
        s(1.0),
        0,
    );
    assert_eq!(ms.center(s(0.0)), v(0.0, 0.0, 0.0));
    assert_eq!(ms.center(s(1.0)), v(2.0, 0.0, 0.0));
    assert_eq!(ms.center(s(0.5)), v(1.0, 0.0, 0.0));
    // A ray at time 0.5 sees the sphere at the midpoint.
    let r = Ray { origin: v(1.0, 0.0, 5.0), direction: v(0.0, 0.0, -1.0), time: s(0.5) };
    let rec = Hitable::MovingSphere(ms).hit(&r, s(0.01), Scalar::max_value())
        .expect("must hit the interpolated sphere");
    assert_eq!(rec.t.raw(), 4 * FRAC);
    // Its box over the whole interval spans both end positions.
    let bb = Hitable::MovingSphere(ms).bounding_box(s(0.0), s(1.0)).unwrap();
    assert_eq!(bb.min, v(-1.0, -1.0, -1.0));
    assert_eq!(bb.max, v(3.0, 1.0, 1.0));
}

#[test]
fn ray_point_at_parameter() {
    let r = Ray { origin: v(1.0, 2.0, 3.0), direction: v(0.0, 0.0, -2.0), time: s(0.0) };
    assert_eq!(r.point_at_parameter(s(2.0)), v(1.0, 2.0, -1.0));
}
