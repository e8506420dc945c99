use rand::SeedableRng;
use raytrace::hitable::HitRecord;
use raytrace::material::{refract, Dielectric, Lambertian, Material, Metal};
use raytrace::ray::Ray;
use raytrace::scalar::{Scalar, FRAC};
use raytrace::texture::{ConstantTexture, Texture};
use raytrace::vec3::Vec3;

fn s(x: f64) -> Scalar {
    Scalar::from_raw((x * FRAC as f64) as i64)
}

fn v(x: f64, y: f64, z: f64) -> Vec3 {
    Vec3::new(s(x), s(y), s(z))
}

fn rng_with(seed: u64) -> rand::rngs::StdRng {
    rand::rngs::StdRng::seed_from_u64(seed)
}

fn head_on_record() -> HitRecord {
    HitRecord { t: s(1.0), point: v(0.0, 0.0, 0.0), normal: v(0.0, 0.0, 1.0), material: 0 }
}

#[test]
fn metal_zero_fuzz_reflects_exactly() {
    // A straight-on ray against a mirror: the scatter direction is the
    // exact mirror direction, with no perturbation.
    let m = Metal::new(v(0.8, 0.8, 0.8), Scalar::zero());
    let r = Ray { origin: v(0.0, 0.0, 5.0), direction: v(0.0, 0.0, -1.0), time: s(0.0) };
    let rec = head_on_record();
    let mut rng = rng_with(11);
    let out = m.scatter(&r, &rec, &mut rng).expect("head-on mirror must scatter");
    assert_eq!(out.scattered.direction, v(0.0, 0.0, 1.0));
    assert_eq!(out.scattered.origin, rec.point);
    assert_eq!(out.attenuation, v(0.8, 0.8, 0.8));
    // The same with another seed: zero fuzz ignores the draw.
    let mut rng2 = rng_with(999);
    let out2 = m.scatter(&r, &rec, &mut rng2).expect("must scatter");
    assert_eq!(out2.scattered.direction, v(0.0, 0.0, 1.0));
}

#[test]
fn metal_absorbs_grazing_reflection_into_surface() {
    // An incoming direction whose mirror direction points into the
    // surface is absorbed (zero fuzz keeps it deterministic).
    let m = Metal::new(v(1.0, 1.0, 1.0), Scalar::zero());
    let rec = head_on_record();
    // Coming from behind the surface: reflection goes further inside.
    let r = Ray { origin: v(0.0, 0.0, -5.0), direction: v(0.0, 0.0, 1.0), time: s(0.0) };
    let mut rng = rng_with(5);
    assert!(m.scatter(&r, &rec, &mut rng).is_none());
}

#[test]
fn dielectric_refracts_head_on() {
    // Straight-on rays pass straight through clear glass.
    let d = Dielectric::new(s(1.5));
    let r = Ray { origin: v(0.0, 0.0, 5.0), direction: v(0.0, 0.0, -1.0), time: s(0.0) };
    let rec = head_on_record();
    let out = d.scatter(&r, &rec).expect("glass never absorbs");
    assert_eq!(out.scattered.direction, v(0.0, 0.0, -1.0));
    assert_eq!(out.attenuation, v(1.0, 1.0, 1.0));
}

#[test]
fn dielectric_total_internal_reflection_at_grazing() {
    // A ray inside the glass at near-grazing incidence: the refraction
    // discriminant goes non-positive and the scatter falls back to the
    // mirror direction.
    let d = Dielectric::new(s(1.5));
    let rec = head_on_record();
    let grazing = Ray { origin: v(-5.0, 0.0, -0.5), direction: v(1.0, 0.0, 0.1), time: s(0.0) };
    // The refraction itself reports total internal reflection...
    assert!(refract(grazing.direction, rec.normal.neg(), s(1.5)).is_none());
    // ...and the scatter reflects instead of refracting.
    let out = d.scatter(&grazing, &rec).expect("glass never absorbs");
    let reflected = v(1.0, 0.0, 0.1).sub(
        rec.normal.scale(s(2.0).mul(v(1.0, 0.0, 0.1).dot(rec.normal))),
    );
    assert_eq!(out.scattered.direction, reflected);
    assert_eq!(out.attenuation, v(1.0, 1.0, 1.0));
}

#[test]
fn dielectric_sometimes_refracts_at_shallower_angles() {
    // At a steeper angle from inside, the same glass refracts.
    let d = Dielectric::new(s(1.5));
    let rec = head_on_record();
    let steep = Ray { origin: v(0.0, 0.0, -5.0), direction: v(0.25, 0.0, 1.0), time: s(0.0) };
    // direction . normal > 0: the ray is inside; refraction succeeds here.
    assert!(refract(steep.direction, rec.normal.neg(), s(1.5)).is_none() == false);
    let out = d.scatter(&steep, &rec).expect("glass never absorbs");
    // Refraction bends the direction; it is not the mirror fallback.
    let reflected = steep.direction.sub(
        rec.normal.scale(s(2.0).mul(steep.direction.dot(rec.normal))),
    );
    assert_ne!(out.scattered.direction, reflected);
}

#[test]
fn lambertian_always_scatters_with_texture_color() {
    let albedo = Texture::Constant(ConstantTexture::new(v(0.3, 0.6, 0.9)));
    let m = Lambertian::new(albedo);
    let r = Ray { origin: v(0.0, 0.0, 5.0), direction: v(0.0, 0.0, -1.0), time: s(0.25) };
    let rec = head_on_record();
    let mut rng = rng_with(3);
    let out = m.scatter(&r, &rec, &mut rng).expect("diffuse never absorbs");
    assert_eq!(out.attenuation, v(0.3, 0.6, 0.9));
    assert_eq!(out.scattered.origin, rec.point);
    assert_eq!(out.scattered.time.raw(), s(0.25).raw());
    // The scattered direction is the normal plus a point strictly
    // inside the unit sphere, so it cannot stray far from the normal.
    let d = out.scattered.direction;
    assert!(d.sub(rec.normal).length().lt(Scalar::one()));
}

#[test]
fn random_draws_vary_with_the_seed() {
    // Two generators with different seeds drive the diffuse scatter to
    // different directions: the draws really reach the result.
    let albedo = Texture::Constant(ConstantTexture::new(v(1.0, 1.0, 1.0)));
    let m = Lambertian::new(albedo);
    let r = Ray { origin: v(0.0, 0.0, 5.0), direction: v(0.0, 0.0, -1.0), time: s(0.0) };
    let rec = head_on_record();
    let mut rng1 = rng_with(1);
    let mut rng2 = rng_with(2);
    let d1 = m.scatter(&r, &rec, &mut rng1).unwrap().scattered.direction;
    let d2 = m.scatter(&r, &rec, &mut rng2).unwrap().scattered.direction;
    assert_ne!(d1, d2);
}

#[test]
fn material_dispatch_matches_variants() {
    let r = Ray { origin: v(0.0, 0.0, 5.0), direction: v(0.0, 0.0, -1.0), time: s(0.0) };
    let rec = head_on_record();
    let mut rng = rng_with(8);
    let metal = Material::Metal(Metal::new(v(0.5, 0.5, 0.5), Scalar::zero()));
    let out = metal.scatter(&r, &rec, &mut rng).expect("mirror must scatter head-on");
    assert_eq!(out.scattered.direction, v(0.0, 0.0, 1.0));
    let glass = Material::Dielectric(Dielectric::new(s(1.5)));
    let out2 = glass.scatter(&r, &rec, &mut rng).expect("glass never absorbs");
    assert_eq!(out2.scattered.direction, v(0.0, 0.0, -1.0));
}
