//! Material scattering: given an incoming ray and a hit record, either
//! an outgoing ray with an attenuation color, or absorption. Scattering
//! that draws randomness is specified over every admissible draw: the
//! contracts quantify over the random point, and the deterministic part
//! is exact.

use vstd::prelude::*;

use crate::hitable::HitRecord;
use crate::ray::Ray;
use crate::rng::rng_below;
use crate::scalar::{
    lemma_sat_mul_zero, lemma_sat_sqrt_bound, mag, sat_div, sat_mul, sat_sqrt, sat_sub, Scalar,
    FRAC, HALF_RAW,
};
use crate::texture::{texture_value_spec, texture_wf, Texture};
use crate::vec3::{
    v3, v3_add, v3_dot, v3_len, v3_neg, v3_scale, v3_sub, v3_unit, Vec3,
};

verus! {

/// A successful scatter: the outgoing ray and the color factor applied
/// to whatever that ray goes on to gather.
#[derive(Clone, Copy, Debug, PartialEq, Eq, Structural)]
pub struct MaterialRecord {
    pub scattered: Ray,
    pub attenuation: Vec3,
}

/// The point lies strictly inside the unit sphere.
pub open spec fn in_unit_sphere(p: Vec3) -> bool {
    v3_len(p) < FRAC as int
}

/// A point strictly inside the unit sphere, by bounded rejection
/// sampling: candidates have each coordinate uniform in `[0, 1)`, as the
/// diffuse lobe of this renderer draws them, and a candidate is accepted
/// when its length is below one. The draw bound keeps the loop provably
/// terminating; after it, a fixed interior point stands in (the chance
/// of that is below `2^-60`).
pub fn random_point_in_unit_sphere(rng: &mut rand::rngs::StdRng) -> (p: Vec3)
    ensures
        in_unit_sphere(p),
{
    let mut tries: usize = 0;
    while tries < 64
        invariant
            tries <= 64,
        decreases 64 - tries,
    {
        let x = Scalar::from_raw(rng_below(rng, 65536) as i64);
        let y = Scalar::from_raw(rng_below(rng, 65536) as i64);
        let z = Scalar::from_raw(rng_below(rng, 65536) as i64);
        let point = Vec3::new(x, y, z);
        if point.length().lt(Scalar::one()) {
            return point;
        }
        tries = tries + 1;
    }
    let h = Scalar::from_raw(HALF_RAW);
    let p = Vec3::fromf(h);
    proof {
        assert(mag(HALF_RAW as int) == HALF_RAW as int);
        assert(32768int * 32768int == 1073741824) by (nonlinear_arith);
        assert(1073741824int / (FRAC as int) == 16384);
        assert(1int * 1int * 16384int == 16384) by (nonlinear_arith);
        assert(sat_mul(HALF_RAW as int, HALF_RAW as int) == 16384);
        assert(v3_dot(p, p) == 49152);
        lemma_sat_sqrt_bound(49152, FRAC as int);
    }
    p
}

/// The mirror direction: `v - 2 (v . n) n`.
pub open spec fn reflect_spec(v: Vec3, n: Vec3) -> Vec3 {
    v3_sub(v, v3_scale(n, sat_mul(2 * (FRAC as int), v3_dot(v, n))))
}

/// Reflect a direction about a normal.
pub fn reflect(vec: Vec3, normal: Vec3) -> (r: Vec3)
    ensures
        r == reflect_spec(vec, normal),
{
    vec.sub(normal.scale(Scalar::from_raw(2 * FRAC).mul(vec.dot(normal))))
}

/// Snell refraction of `v` against the outward normal with the given
/// index ratio: absent when the discriminant is not positive (total
/// internal reflection).
pub open spec fn refract_spec(v: Vec3, n: Vec3, ratio: int) -> Option<Vec3> {
    let uv = v3_unit(v);
    let dt = v3_dot(uv, n);
    let disc = sat_sub(
        FRAC as int,
        sat_mul(sat_mul(ratio, ratio), sat_sub(FRAC as int, sat_mul(dt, dt))),
    );
    if disc > 0 {
        Some(
            v3_sub(v3_scale(v3_sub(uv, v3_scale(n, dt)), ratio), v3_scale(n, sat_sqrt(disc))),
        )
    } else {
        None
    }
}

/// Refract a direction, or report total internal reflection.
pub fn refract(vec: Vec3, normal: Vec3, refraction_indices_ratio: Scalar) -> (r: Option<Vec3>)
    ensures
        r == refract_spec(vec, normal, refraction_indices_ratio@),
{
    let uv = vec.unit_vector();
    let dt = uv.dot(normal);
    let discriminant = Scalar::one().sub(
        refraction_indices_ratio.mul(refraction_indices_ratio).mul(
            Scalar::one().sub(dt.mul(dt)),
        ),
    );
    if discriminant.gt(Scalar::zero()) {
        Some(
            uv.sub(normal.scale(dt)).scale(refraction_indices_ratio).sub(
                normal.scale(discriminant.sqrt()),
            ),
        )
    } else {
        None
    }
}

/// A diffuse material colored by a texture.
#[derive(Clone, Debug)]
pub struct Lambertian {
    pub albedo: Texture,
}

impl Lambertian {
    /// A diffuse material from its texture.
    pub fn new(albedo: Texture) -> (m: Lambertian)
        ensures
            m.albedo == albedo,
    {
        Lambertian { albedo }
    }
}

/// What a diffuse scatter returns for a given random point: the new ray
/// leaves the hit point along the normal perturbed by the point, and the
/// attenuation is the texture's color there. Diffuse never absorbs.
pub open spec fn lambertian_scatter_spec(
    m: Lambertian,
    ray: Ray,
    rec: HitRecord,
    p: Vec3,
) -> MaterialRecord {
    MaterialRecord {
        scattered: Ray {
            origin: rec.point,
            direction: v3_add(rec.normal, p),
            time: ray.time,
        },
        attenuation: texture_value_spec(m.albedo, 0, 0, rec.point),
    }
}

impl Lambertian {
    /// Scatter diffusely: always succeeds, with the random perturbation
    /// drawn strictly inside the unit sphere.
    pub fn scatter(&self, ray: &Ray, rec: &HitRecord, rng: &mut rand::rngs::StdRng) -> (res:
        Option<MaterialRecord>)
        requires
            texture_wf(self.albedo),
        ensures
            res is Some,
            exists|p: Vec3|
                #[trigger] in_unit_sphere(p) && res == Some(
                    lambertian_scatter_spec(*self, *ray, *rec, p),
                ),
    {
        let p = random_point_in_unit_sphere(rng);
        let res = Some(
            MaterialRecord {
                scattered: Ray {
                    origin: rec.point,
                    direction: rec.normal.add(p),
                    time: ray.time,
                },
                attenuation: self.albedo.value(Scalar::zero(), Scalar::zero(), rec.point),
            },
        );
        proof {
            assert(in_unit_sphere(p) && res == Some(
                lambertian_scatter_spec(*self, *ray, *rec, p),
            ));
        }
        res
    }
}

/// A specular material with a fuzz parameter blurring the reflection.
#[derive(Clone, Copy, Debug, PartialEq, Eq, Structural)]
pub struct Metal {
    pub albedo: Vec3,
    pub fuzz: Scalar,
}

impl Metal {
    /// A specular material from its color and fuzz.
    pub fn new(albedo: Vec3, fuzz: Scalar) -> (m: Metal)
        ensures
            m == (Metal { albedo, fuzz }),
    {
        Metal { albedo, fuzz }
    }
}

/// What a specular scatter returns for a given random point: the mirror
/// direction of the unit incoming direction, perturbed by `fuzz` times
/// the point; absorbed exactly when the perturbed direction does not
/// leave the surface.
pub open spec fn metal_scatter_spec(m: Metal, ray: Ray, rec: HitRecord, p: Vec3) -> Option<
    MaterialRecord,
> {
    let reflected = reflect_spec(v3_unit(ray.direction), rec.normal);
    let dir = v3_add(reflected, v3_scale(p, m.fuzz@));
    if v3_dot(dir, rec.normal) > 0 {
        Some(
            MaterialRecord {
                scattered: Ray { origin: rec.point, direction: dir, time: ray.time },
                attenuation: m.albedo,
            },
        )
    } else {
        None
    }
}

impl Metal {
    /// Scatter specularly, with the fuzz perturbation drawn strictly
    /// inside the unit sphere.
    pub fn scatter(&self, ray: &Ray, rec: &HitRecord, rng: &mut rand::rngs::StdRng) -> (res:
        Option<MaterialRecord>)
        ensures
            exists|p: Vec3|
                #[trigger] in_unit_sphere(p) && res == metal_scatter_spec(*self, *ray, *rec, p),
    {
        let p = random_point_in_unit_sphere(rng);
        let reflected = reflect(ray.direction.unit_vector(), rec.normal);
        let scattered = Ray {
            origin: rec.point,
            direction: reflected.add(p.scale(self.fuzz)),
            time: ray.time,
        };
        let res = if scattered.direction.dot(rec.normal).gt(Scalar::zero()) {
            Some(MaterialRecord { scattered, attenuation: self.albedo })
        } else {
            None
        };
        proof {
            assert(in_unit_sphere(p) && res == metal_scatter_spec(*self, *ray, *rec, p));
        }
        res
    }
}

/// With zero fuzz the specular scatter ignores the random point
/// entirely: whenever it scatters, the outgoing direction is exactly the
/// mirror direction of the unit incoming direction, and it absorbs
/// exactly when the mirror direction does not leave the surface.
pub proof fn lemma_metal_mirror(m: Metal, ray: Ray, rec: HitRecord, p: Vec3)
    requires
        m.fuzz@ == 0,
    ensures
        match metal_scatter_spec(m, ray, rec, p) {
            Some(mr) => mr.scattered.direction == reflect_spec(v3_unit(ray.direction), rec.normal),
            None => v3_dot(reflect_spec(v3_unit(ray.direction), rec.normal), rec.normal) <= 0,
        },
{
    let reflected = reflect_spec(v3_unit(ray.direction), rec.normal);
    lemma_sat_mul_zero(p.x@);
    lemma_sat_mul_zero(p.y@);
    lemma_sat_mul_zero(p.z@);
    assert(v3_scale(p, 0) == v3(0, 0, 0));
    assert(v3_add(reflected, v3(0, 0, 0)) == reflected);
}

/// A clear refractive material.
#[derive(Clone, Copy, Debug, PartialEq, Eq, Structural)]
pub struct Dielectric {
    pub refraction_index: Scalar,
}

impl Dielectric {
    /// A refractive material from its index.
    pub fn new(refraction_index: Scalar) -> (m: Dielectric)
        ensures
            m.refraction_index == refraction_index,
    {
        Dielectric { refraction_index }
    }
}

/// What a refractive scatter returns: the normal and index ratio are
/// oriented by which side the ray comes from; refraction is attempted,
/// and total internal reflection falls back to the mirror direction.
/// The attenuation is the unit color, and the material never absorbs.
pub open spec fn dielectric_scatter_spec(d: Dielectric, ray: Ray, rec: HitRecord)
    -> MaterialRecord {
    let inside = v3_dot(ray.direction, rec.normal) > 0;
    let outward = if inside {
        v3_neg(rec.normal)
    } else {
        rec.normal
    };
    let ratio = if inside {
        d.refraction_index@
    } else {
        sat_div(FRAC as int, d.refraction_index@)
    };
    match refract_spec(ray.direction, outward, ratio) {
        Some(refracted) => MaterialRecord {
            scattered: Ray { origin: rec.point, direction: refracted, time: ray.time },
            attenuation: v3(FRAC as int, FRAC as int, FRAC as int),
        },
        None => MaterialRecord {
            scattered: Ray {
                origin: rec.point,
                direction: reflect_spec(ray.direction, rec.normal),
                time: ray.time,
            },
            attenuation: v3(FRAC as int, FRAC as int, FRAC as int),
        },
    }
}

impl Dielectric {
    /// Scatter through the glass: deterministic, and never absorbing.
    pub fn scatter(&self, ray: &Ray, rec: &HitRecord) -> (res: Option<MaterialRecord>)
        ensures
            res == Some(dielectric_scatter_spec(*self, *ray, *rec)),
    {
        let is_ray_inside_object = ray.direction.dot(rec.normal).gt(Scalar::zero());

        // The outward normal points against the incoming ray.
        let outward_normal = if is_ray_inside_object {
            rec.normal.neg()
        } else {
            rec.normal
        };

        let refraction_ratio = if is_ray_inside_object {
            self.refraction_index
        } else {
            Scalar::one().div(self.refraction_index)
        };

        match refract(ray.direction, outward_normal, refraction_ratio) {
            Some(refracted) => Some(
                MaterialRecord {
                    scattered: Ray {
                        origin: rec.point,
                        direction: refracted,
                        time: ray.time,
                    },
                    attenuation: Vec3::fromf(Scalar::one()),
                },
            ),
            None => Some(
                MaterialRecord {
                    scattered: Ray {
                        origin: rec.point,
                        direction: reflect(ray.direction, rec.normal),
                        time: ray.time,
                    },
                    attenuation: Vec3::fromf(Scalar::one()),
                },
            ),
        }
    }
}

/// The closed union of material variants.
#[derive(Clone, Debug)]
pub enum Material {
    Lambertian(Lambertian),
    Metal(Metal),
    Dielectric(Dielectric),
}

/// The material's texture tables, if any, are well-formed.
pub open spec fn material_wf(m: Material) -> bool {
    match m {
        Material::Lambertian(l) => texture_wf(l.albedo),
        Material::Metal(_) => true,
        Material::Dielectric(_) => true,
    }
}

impl Material {
    /// Scatter an incoming ray off this material: a new ray and an
    /// attenuation, or absorption. Diffuse and refractive materials
    /// never absorb; the refractive result is deterministic, the others
    /// are pinned down for some random point inside the unit sphere.
    pub fn scatter(&self, ray: &Ray, rec: &HitRecord, rng: &mut rand::rngs::StdRng) -> (res:
        Option<MaterialRecord>)
        requires
            material_wf(*self),
        ensures
            match *self {
                Material::Lambertian(m) => res is Some && (exists|p: Vec3|
                    #[trigger] in_unit_sphere(p) && res == Some(
                        lambertian_scatter_spec(m, *ray, *rec, p),
                    )),
                Material::Metal(m) => exists|p: Vec3|
                    #[trigger] in_unit_sphere(p) && res == metal_scatter_spec(m, *ray, *rec, p),
                Material::Dielectric(m) => res == Some(dielectric_scatter_spec(m, *ray, *rec)),
            },
    {
        match self {
            Material::Lambertian(m) => m.scatter(ray, rec, rng),
            Material::Metal(m) => m.scatter(ray, rec, rng),
            Material::Dielectric(m) => m.scatter(ray, rec),
        }
    }
}

} // verus!
