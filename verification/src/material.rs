//! The material model: a closed set of three scattering behaviours sharing
//! one contract. Scattering either yields a new ray plus a color attenuation,
//! or absorbs the ray.

use crate::fixed::{
    clamp_s, fdiv_s, fmul_s, fsqrt_s, lemma_abs_mul, lemma_fmul_bound, SCALE,
};
use crate::fixed::{abs_i, clamp_fp, div_fp, mul_fp, sqrt_fp};
use crate::helpers::{
    in_unit_sphere_s, random_in_unit_sphere, random_unit_vector, unit_vector_s, SAMPLE_TRIES,
};
use crate::hittable::{hit_record_wf_s, HitRecord};
use crate::ray::{ray_wf_s, reflected_s, refracted_s, Ray};
use crate::rng::{next_state_s, unit_draw_s, Rng};
use crate::vec3::{
    add_v, bounded_s, dot_s, in_unit_color, lemma_dot_s_bound, lemma_scale_v_bound, near_zero_s,
    neg_v, scale_v, unit_or_zero_s, Vec3,
};
use vstd::prelude::*;

verus! {

/// Diffuse scattering with the given albedo.
#[derive(Clone, Copy, Debug)]
pub struct Lambertian {
    pub albedo: Vec3,
}

impl Lambertian {
    pub fn new(albedo: Vec3) -> (r: Lambertian)
        ensures
            r.albedo == albedo,
    {
        Lambertian { albedo }
    }
}

/// Mirror scattering with the given albedo, roughened by `fuzz` in `[0, 1]`.
#[derive(Clone, Copy, Debug)]
pub struct Metal {
    pub albedo: Vec3,
    pub fuzz: i64,
}

impl Metal {
    pub fn new(albedo: Vec3, fuzz: i64) -> (r: Metal)
        ensures
            r.albedo == albedo,
            r.fuzz == fuzz,
    {
        Metal { albedo, fuzz }
    }
}

/// A clear dielectric with the given refractive index.
#[derive(Clone, Copy, Debug)]
pub struct Dielectric {
    pub ir: i64,
}

/// Schlick's polynomial approximation of the Fresnel reflection coefficient:
/// `r0 + (1 - r0) (1 - cos)^5` with `r0 = ((1 - ratio) / (1 + ratio))^2`.
pub open spec fn reflectance_s(cosine: int, ratio: int) -> int {
    let r0 = fdiv_s(SCALE as int - ratio, SCALE as int + ratio);
    let r0s = fmul_s(r0, r0);
    let q = SCALE as int - cosine;
    let q2 = fmul_s(q, q);
    let q4 = fmul_s(q2, q2);
    let q5 = fmul_s(q4, q);
    r0s + fmul_s(SCALE as int - r0s, q5)
}

impl Dielectric {
    pub fn new(index_of_refraction: i64) -> (r: Dielectric)
        ensures
            r.ir == index_of_refraction,
    {
        Dielectric { ir: index_of_refraction }
    }

    fn reflectance(cosine: i64, refraction_ratio: i64) -> (r: i64)
        requires
            1 <= refraction_ratio <= 0x4_0000,
            -0xC_0000 <= cosine <= SCALE,
        ensures
            r as int == reflectance_s(cosine as int, refraction_ratio as int),
            0 <= r,
    {
        let s = SCALE;
        let r0 = div_fp(s - refraction_ratio, s + refraction_ratio);
        proof {
            let ratio = refraction_ratio as int;
            assert(abs_i(s as int - ratio) <= s as int + ratio);
            assert(abs_i(r0 as int) <= s as int) by (nonlinear_arith)
                requires
                    abs_i(r0 as int) * abs_i(s as int + ratio) <= abs_i(s as int - ratio) * (
                    SCALE as int),
                    abs_i(s as int - ratio) <= s as int + ratio,
                    s as int + ratio > 0,
                    s == SCALE,
            ;
            lemma_abs_mul(r0 as int, r0 as int, 0x1_0000, 0x1_0000);
        }
        let r0s = mul_fp(r0, r0);
        proof {
            lemma_fmul_bound(r0 as int, r0 as int, 0x1_0000);
            crate::fixed::lemma_fmul_sq_nonneg(r0 as int);
        }
        let q = s - cosine;
        proof {
            lemma_abs_mul(q as int, q as int, 0xD_0000, 0xD_0000);
            lemma_fmul_bound(q as int, q as int, 0xA9_0000);
            crate::fixed::lemma_fmul_sq_nonneg(q as int);
        }
        let q2 = mul_fp(q, q);
        proof {
            lemma_abs_mul(q2 as int, q2 as int, 0xA9_0000, 0xA9_0000);
            lemma_fmul_bound(q2 as int, q2 as int, 0x6FB1_0000);
            crate::fixed::lemma_fmul_sq_nonneg(q2 as int);
        }
        let q4 = mul_fp(q2, q2);
        proof {
            lemma_abs_mul(q4 as int, q as int, 0x6FB1_0000, 0xD_0000);
            lemma_fmul_bound(q4 as int, q as int, 0x5_ABFD_0000);
            crate::fixed::lemma_fmul_nonneg(q4 as int, q as int);
        }
        let q5 = mul_fp(q4, q);
        proof {
            lemma_abs_mul(s as int - r0s as int, q5 as int, 0x1_0000, 0x5_ABFD_0000);
            lemma_fmul_bound(s as int - r0s as int, q5 as int, 0x5_ABFD_0000);
            crate::fixed::lemma_fmul_nonneg(s as int - r0s as int, q5 as int);
        }
        r0s + mul_fp(s - r0s, q5)
    }
}

/// The closed material variant set; the polymorphic scatter capability is a
/// match over it.
#[derive(Clone, Copy, Debug)]
pub enum Material {
    Lambertian(Lambertian),
    Metal(Metal),
    Dielectric(Dielectric),
}

pub open spec fn material_wf_s(m: Material) -> bool {
    match m {
        Material::Lambertian(l) => in_unit_color(l.albedo),
        Material::Metal(mt) => in_unit_color(mt.albedo) && 0 <= mt.fuzz <= SCALE,
        Material::Dielectric(d) => 0x4000 <= d.ir <= 0x4_0000,
    }
}

/// Diffuse scattering: target direction `normal + random_unit_vector()`,
/// falling back to the normal itself when that sum degenerates; never absorbs.
pub open spec fn lambertian_scatter_s(mat: Lambertian, rec: HitRecord, s: u64) -> (Option<
    (Ray, Vec3),
>, u64) {
    let (u, s1) = unit_vector_s(s);
    let dir0 = add_v(rec.normal, u);
    let dir = if near_zero_s(dir0) {
        rec.normal
    } else {
        dir0
    };
    (Some((Ray { origin: rec.p, direction: dir }, mat.albedo)), s1)
}

/// The fuzz-perturbed mirror direction a metal scatter would use.
pub open spec fn metal_fuzzed_dir_s(mat: Metal, ray: Ray, rec: HitRecord, s: u64) -> Vec3 {
    let refl = reflected_s(ray, rec);
    let p = in_unit_sphere_s(s, SAMPLE_TRIES as nat).0;
    add_v(refl.direction, scale_v(mat.fuzz as int, p))
}

/// Metal scattering: absorbs exactly when the fuzzed reflection falls at or
/// below the surface.
pub open spec fn metal_scatter_s(mat: Metal, ray: Ray, rec: HitRecord, s: u64) -> (Option<
    (Ray, Vec3),
>, u64) {
    let dir = metal_fuzzed_dir_s(mat, ray, rec, s);
    let s1 = in_unit_sphere_s(s, SAMPLE_TRIES as nat).1;
    if dot_s(dir, rec.normal) > 0 {
        (Some((Ray { origin: rec.p, direction: dir }, mat.albedo)), s1)
    } else {
        (None, s1)
    }
}

/// Dielectric scattering: reflect on total internal reflection or a Schlick
/// coin flip, refract otherwise; attenuation is opaque white; never absorbs.
pub open spec fn dielectric_scatter_s(mat: Dielectric, ray: Ray, rec: HitRecord, s: u64) -> (Option<
    (Ray, Vec3),
>, u64) {
    let ratio = if rec.front_face {
        fdiv_s(SCALE as int, mat.ir as int)
    } else {
        mat.ir as int
    };
    let v = unit_or_zero_s(ray.direction);
    let mc = dot_s(neg_v(v), rec.normal);
    let cos_theta = if mc > SCALE as int {
        SCALE as int
    } else {
        mc
    };
    let sin_theta = fsqrt_s(clamp_s(SCALE as int - fmul_s(cos_theta, cos_theta), 0, SCALE as int));
    let u = unit_draw_s(s);
    let s1 = next_state_s(s);
    let scattered = if fmul_s(ratio, sin_theta) > SCALE as int || reflectance_s(cos_theta, ratio)
        > u {
        reflected_s(ray, rec)
    } else {
        refracted_s(ray, rec, ratio)
    };
    (Some((scattered, Vec3 { x: SCALE, y: SCALE, z: SCALE })), s1)
}

/// The one scattering contract all materials share.
pub open spec fn scatter_s(m: Material, ray: Ray, rec: HitRecord, s: u64) -> (Option<
    (Ray, Vec3),
>, u64) {
    match m {
        Material::Lambertian(l) => lambertian_scatter_s(l, rec, s),
        Material::Metal(mt) => metal_scatter_s(mt, ray, rec, s),
        Material::Dielectric(d) => dielectric_scatter_s(d, ray, rec, s),
    }
}

impl Material {
    /// Scatter an incoming ray at a hit. `None` models full absorption; a
    /// value carries the continuation ray and the color multiplier.
    pub fn scatter(&self, ray: &Ray, rec: &HitRecord, rng: &mut Rng) -> (r: Option<(Ray, Vec3)>)
        requires
            ray_wf_s(*ray),
            hit_record_wf_s(*rec),
            material_wf_s(*self),
        ensures
            r == scatter_s(*self, *ray, *rec, old(rng).state).0,
            final(rng).state == scatter_s(*self, *ray, *rec, old(rng).state).1,
            r is Some ==> ray_wf_s((r->0).0) && (r->0).0.origin == rec.p && in_unit_color((r->0).1),
            (match *self {
                Material::Dielectric(_) => r is Some,
                _ => true,
            }),
            (match *self {
                Material::Metal(mt) => (r is Some <==> dot_s(
                    metal_fuzzed_dir_s(mt, *ray, *rec, old(rng).state),
                    rec.normal,
                ) > 0),
                _ => true,
            }),
    {
        match self {
            Material::Lambertian(l) => {
                let u = random_unit_vector(rng);
                let dir0 = rec.normal.add(u);
                let dir = if dir0.near_zero() {
                    rec.normal
                } else {
                    dir0
                };
                Some((Ray::new(rec.p, dir), l.albedo))
            },
            Material::Metal(mt) => {
                let refl = ray.reflected(rec);
                let p = random_in_unit_sphere(rng);
                proof {
                    lemma_scale_v_bound(
                        mt.fuzz as int,
                        p,
                        0x1_0000,
                        0x1_0000,
                        0x1_0000,
                    );
                }
                let fuzzed = refl.direction.add(p.scale(mt.fuzz));
                let d = fuzzed.dot(rec.normal);
                if d > 0 {
                    Some((Ray::new(rec.p, fuzzed), mt.albedo))
                } else {
                    None
                }
            },
            Material::Dielectric(di) => {
                let ratio = if rec.front_face {
                    let q = div_fp(SCALE, di.ir);
                    proof {
                        let s = SCALE as int;
                        let ir = di.ir as int;
                        assert(q as int * ir <= s * s);
                        assert(q as int <= 0x4_0000) by (nonlinear_arith)
                            requires
                                q as int * ir <= s * s,
                                q >= 0,
                                ir >= 0x4000,
                                s == 65536,
                        ;
                        vstd::arithmetic::div_mod::lemma_div_is_ordered_by_denominator(
                            s * s,
                            ir,
                            0x4_0000,
                        );
                        vstd::arithmetic::div_mod::lemma_div_multiples_vanish(0x4000, 0x4_0000);
                    }
                    q
                } else {
                    di.ir
                };
                let v = ray.direction.unit_or_zero();
                let mc = v.neg().dot(rec.normal);
                proof {
                    lemma_dot_s_bound(
                        neg_v(v),
                        rec.normal,
                        0x2_0000,
                        0x2_0000,
                        0x4_0000,
                    );
                }
                let cos_theta = if mc > SCALE {
                    SCALE
                } else {
                    mc
                };
                proof {
                    lemma_abs_mul(cos_theta as int, cos_theta as int, 0xC_0000, 0xC_0000);
                    lemma_fmul_bound(cos_theta as int, cos_theta as int, 0x90_0000);
                }
                let cc = mul_fp(cos_theta, cos_theta);
                let sin_theta = sqrt_fp(clamp_fp(SCALE - cc, 0, SCALE));
                proof {
                    assert((sin_theta as int) * (sin_theta as int) <= (SCALE as int) * (
                    SCALE as int));
                    assert(sin_theta <= SCALE) by (nonlinear_arith)
                        requires
                            (sin_theta as int) * (sin_theta as int) <= (SCALE as int) * (
                            SCALE as int),
                            sin_theta >= 0,
                            SCALE == 65536,
                    ;
                    lemma_abs_mul(ratio as int, sin_theta as int, 0x4_0000, SCALE as int);
                }
                let rs = mul_fp(ratio, sin_theta);
                let refl_coin = Dielectric::reflectance(cos_theta, ratio);
                let u = rng.next_unit();
                let scattered = if rs > SCALE || refl_coin > u {
                    ray.reflected(rec)
                } else {
                    ray.refracted(rec, ratio)
                };
                Some((scattered, Vec3::new(SCALE, SCALE, SCALE)))
            },
        }
    }
}

} // verus!
