use rand::SeedableRng;
use raytrace::bvh::BvhTree;
use raytrace::hitable::{list_hit, Hitable, MovingSphere, Sphere};
use raytrace::material::{Dielectric, Lambertian, Material, Metal};
use raytrace::ray::Ray;
use raytrace::scalar::{Scalar, FRAC};
use raytrace::scene::{BuildError, Scene};
use raytrace::texture::{ConstantTexture, Texture};
use raytrace::vec3::Vec3;

fn s(x: f64) -> Scalar {
    Scalar::from_raw((x * FRAC as f64) as i64)
}

fn v(x: f64, y: f64, z: f64) -> Vec3 {
    Vec3::new(s(x), s(y), s(z))
}

fn rng_with(seed: u64) -> rand::rngs::StdRng {
    rand::rngs::StdRng::seed_from_u64(seed)
}

fn test_world() -> Vec<Hitable> {
    vec![
        Hitable::Sphere(Sphere::new(v(0.0, -100.5, -1.0), s(100.0), 0)),
        Hitable::Sphere(Sphere::new(v(0.0, 0.0, -1.0), s(0.5), 1)),
        Hitable::Sphere(Sphere::new(v(-1.0, 0.0, -1.0), s(0.5), 2)),
        Hitable::Sphere(Sphere::new(v(1.0, 0.0, -1.0), s(0.5), 3)),
        Hitable::Sphere(Sphere::new(v(0.5, 1.0, -2.0), s(0.25), 1)),
        Hitable::Sphere(Sphere::new(v(-0.5, 1.5, -3.0), s(0.75), 2)),
        Hitable::MovingSphere(MovingSphere::new(
            v(2.0, 0.0, -2.0),
            v(2.0, 0.5, -2.0),
            s(0.0),
            s(1.0),
            s(0.25),
            3,
        )),
    ]
}

fn test_materials() -> Vec<Material> {
    vec![
        Material::Lambertian(Lambertian::new(Texture::Constant(ConstantTexture::new(v(
            0.8, 0.8, 0.0,
        ))))),
        Material::Lambertian(Lambertian::new(Texture::Constant(ConstantTexture::new(v(
            0.1, 0.2, 0.5,
        ))))),
        Material::Dielectric(Dielectric::new(s(1.5))),
        Material::Metal(Metal::new(v(0.8, 0.6, 0.2), Scalar::zero())),
    ]
}

fn test_rays() -> Vec<Ray> {
    vec![
        Ray { origin: v(0.0, 0.0, 0.0), direction: v(0.0, 0.0, -1.0), time: s(0.0) },
        Ray { origin: v(0.0, 0.0, 0.0), direction: v(-1.0, 0.0, -1.0), time: s(0.0) },
        Ray { origin: v(0.0, 0.0, 0.0), direction: v(1.0, 0.0, -1.0), time: s(0.5) },
        Ray { origin: v(0.0, 2.0, 0.0), direction: v(0.0, -1.0, 0.0), time: s(0.0) },
        Ray { origin: v(2.0, 0.0, 0.0), direction: v(0.0, 0.0, -1.0), time: s(1.0) },
        Ray { origin: v(0.0, 5.0, 0.0), direction: v(0.0, 1.0, 0.0), time: s(0.0) },
        Ray { origin: v(-3.0, 1.0, 0.0), direction: v(0.5, 0.1, -0.6), time: s(0.25) },
    ]
}

#[test]
fn bvh_agrees_with_linear_scan() {
    // Whatever tree shape the randomized build produces, the tree's
    // nearest hit carries the same parameter as the brute-force fold
    // over the whole list.
    for seed in [1u64, 7, 42, 1234] {
        let mut rng = rng_with(seed);
        let tree = BvhTree::new(test_world(), s(0.0), s(1.0), &mut rng);
        let list = test_world();
        for r in test_rays() {
            let from_tree = tree.hit(&r, s(0.01), Scalar::max_value());
            let from_list = list_hit(&list, &r, s(0.01), Scalar::max_value());
            match (from_tree, from_list) {
                (None, None) => {}
                (Some(a), Some(b)) => {
                    assert_eq!(a.t.raw(), b.t.raw(), "seed {seed}");
                }
                (a, b) => panic!("tree {a:?} disagrees with scan {b:?} (seed {seed})"),
            }
        }
    }
}

#[test]
fn bvh_single_primitive() {
    let mut rng = rng_with(9);
    let world = vec![Hitable::Sphere(Sphere::new(v(0.0, 0.0, 0.0), s(1.0), 0))];
    let tree = BvhTree::new(world, s(0.0), s(1.0), &mut rng);
    let r = Ray { origin: v(0.0, 0.0, 5.0), direction: v(0.0, 0.0, -1.0), time: s(0.0) };
    let rec = tree.hit(&r, s(0.01), Scalar::max_value()).expect("must hit");
    assert_eq!(rec.t.raw(), 4 * FRAC);
    let bb = tree.bounding_box(s(0.0), s(1.0)).expect("the root has a box");
    assert_eq!(bb.min, v(-1.0, -1.0, -1.0));
    assert_eq!(bb.max, v(1.0, 1.0, 1.0));
}

#[test]
fn bvh_prunes_nothing_it_should_keep() {
    // The nearest of two spheres along one ray, repeated over several
    // random tree shapes.
    for seed in 0u64..8 {
        let mut rng = rng_with(seed);
        let world = vec![
            Hitable::Sphere(Sphere::new(v(0.0, 0.0, -3.0), s(1.0), 0)),
            Hitable::Sphere(Sphere::new(v(0.0, 0.0, -8.0), s(1.0), 0)),
        ];
        let tree = BvhTree::new(world, s(0.0), s(1.0), &mut rng);
        let r = Ray { origin: v(0.0, 0.0, 0.0), direction: v(0.0, 0.0, -1.0), time: s(0.0) };
        let rec = tree.hit(&r, s(0.01), Scalar::max_value()).expect("must hit");
        assert_eq!(rec.t.raw(), 2 * FRAC, "seed {seed}");
    }
}

#[test]
fn linear_scan_keeps_nearest_and_breaks_ties_first() {
    let r = Ray { origin: v(0.0, 0.0, 0.0), direction: v(0.0, 0.0, -1.0), time: s(0.0) };
    // The nearer sphere wins regardless of order.
    let near_far = vec![
        Hitable::Sphere(Sphere::new(v(0.0, 0.0, -8.0), s(1.0), 7)),
        Hitable::Sphere(Sphere::new(v(0.0, 0.0, -3.0), s(1.0), 2)),
    ];
    let rec = list_hit(&near_far, &r, s(0.01), Scalar::max_value()).expect("must hit");
    assert_eq!(rec.t.raw(), 2 * FRAC);
    assert_eq!(rec.material, 2);
    // Two coincident spheres hit at the same parameter: the fold keeps
    // the record it found first.
    let tied = vec![
        Hitable::Sphere(Sphere::new(v(0.0, 0.0, -3.0), s(1.0), 4)),
        Hitable::Sphere(Sphere::new(v(0.0, 0.0, -3.0), s(1.0), 5)),
    ];
    let rec2 = list_hit(&tied, &r, s(0.01), Scalar::max_value()).expect("must hit");
    assert_eq!(rec2.material, 4);
    // An empty collection has no hit.
    assert!(list_hit(&vec![], &r, s(0.01), Scalar::max_value()).is_none());
}

#[test]
fn scene_build_rejects_empty_world() {
    let mut rng = rng_with(1);
    let res = Scene::build(vec![], test_materials(), s(0.0), s(1.0), &mut rng);
    assert_eq!(res.err().expect("an empty world must be refused"), BuildError::EmptyScene);
}

#[test]
fn scene_hit_finds_nearest_material() {
    let mut rng = rng_with(21);
    let scene = Scene::build(test_world(), test_materials(), s(0.0), s(1.0), &mut rng)
        .expect("a non-empty world builds");
    let r = Ray { origin: v(0.0, 0.0, 0.0), direction: v(0.0, 0.0, -1.0), time: s(0.0) };
    let rec = scene.hit(&r, s(0.01), Scalar::max_value()).expect("must hit");
    // The center sphere (radius 0.5 at z = -1) is hit at t = 0.5, in
    // front of the ground sphere.
    assert_eq!(rec.t.raw(), FRAC / 2);
    assert_eq!(rec.material, 1);
}
