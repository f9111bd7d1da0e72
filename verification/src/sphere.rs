//! The sphere primitive and its ray intersection: solve the half-b quadratic,
//! prefer the nearer root, and build a front-face-corrected hit record. A
//! negative radius is a valid encoding of the same surface with the outward
//! normal pointing inward (a hollow shell).

use crate::fixed::{
    abs_i, clamp_s, fdiv_s, fmul_s, fsqrt_s, lemma_abs_mul, lemma_fdiv_bound, lemma_fdiv_neg,
    lemma_fmul_bound, lemma_fmul_neg, POS_MAX, RAD_MAX, REACH_MAX, SCALE, T_MAX,
};
use crate::fixed::{div_fp, mul_fp, sqrt_fp};
use crate::hittable::{hit_record_s, hit_record_wf_s, HitRecord};
use crate::material::{material_wf_s, Material};
use crate::ray::{at_s, ray_wf_s, Ray};
use crate::vec3::{
    bounded_s, dot_s, lemma_dot_neg, lemma_dot_s_bound, lemma_dot_self_nonneg, neg_v, sub_v, Vec3,
};
use vstd::prelude::*;

verus! {

#[derive(Clone, Copy, Debug)]
pub struct Sphere {
    pub center: Vec3,
    pub radius: i64,
    pub material: Material,
}

/// A sphere the world model admits: its whole surface within the center
/// bound (each center component plus the radius magnitude stays inside
/// `POS_MAX`), radius at least a sixteenth of a unit in magnitude (its sign
/// encodes the normal orientation) and within the radius bound, material
/// valid. The radius floor keeps the outward-normal division
/// well-conditioned: near one raw step the rounded normal would be garbage.
pub open spec fn sphere_wf_s(s: Sphere) -> bool {
    &&& abs_i(s.center.x as int) + abs_i(s.radius as int) <= POS_MAX as int
    &&& abs_i(s.center.y as int) + abs_i(s.radius as int) <= POS_MAX as int
    &&& abs_i(s.center.z as int) + abs_i(s.radius as int) <= POS_MAX as int
    &&& 0x1000 <= abs_i(s.radius as int) <= RAD_MAX as int
    &&& material_wf_s(s.material)
}

/// The outward normal of the sphere surface at `p`: `(p - center) / radius`.
pub open spec fn sphere_outward_s(s: Sphere, p: Vec3) -> Vec3 {
    Vec3 {
        x: fdiv_s(p.x - s.center.x, s.radius as int) as i64,
        y: fdiv_s(p.y - s.center.y, s.radius as int) as i64,
        z: fdiv_s(p.z - s.center.z, s.radius as int) as i64,
    }
}

/// The record a hit at parameter `root` yields, guarded by the reachable
/// world bounds. An exact surface point of a well-formed sphere lies within
/// `POS_MAX`, a full `RAD_MAX` (a thousand units) inside the point guard,
/// and has an outward normal of exactly unit length, well inside the
/// normal guard's `[-2, 2]`; only a root displaced by severe fixed-point
/// rounding — a nearly tangent ray, say — can trip either guard, and such a
/// hit is treated as a miss.
pub open spec fn sphere_hit_at_s(s: Sphere, ray: Ray, root: int) -> Option<HitRecord> {
    let p = at_s(ray, root);
    if !bounded_s(p, REACH_MAX as int) {
        None
    } else {
        let outward = sphere_outward_s(s, p);
        if !bounded_s(outward, 0x2_0000) {
            None
        } else {
            Some(hit_record_s(p, outward, root as i64, ray, s.material))
        }
    }
}

/// The nearest intersection of `ray` with the sphere at a parameter within
/// `[t_min, t_max]`: solve `a t^2 + 2 half_b t + c = 0`, try the smaller root
/// first, fall back to the larger, miss when both are out of range. A ray
/// whose direction is too short to register (`a < 1` raw) cannot hit.
pub open spec fn sphere_hit_s(s: Sphere, ray: Ray, t_min: i64, t_max: i64) -> Option<HitRecord> {
    let oc = sub_v(ray.origin, s.center);
    let a = dot_s(ray.direction, ray.direction);
    let half_b = dot_s(oc, ray.direction);
    let c = dot_s(oc, oc) - fmul_s(s.radius as int, s.radius as int);
    if a < 1 {
        None
    } else {
        let disc = fmul_s(half_b, half_b) - fmul_s(a, c);
        if disc < 0 {
            None
        } else {
            let sqrtd = fsqrt_s(disc);
            let r1 = fdiv_s(-half_b - sqrtd, a);
            if r1 < t_min || r1 > t_max {
                let r2 = fdiv_s(-half_b + sqrtd, a);
                if r2 < t_min || r2 > t_max {
                    None
                } else {
                    sphere_hit_at_s(s, ray, r2)
                }
            } else {
                sphere_hit_at_s(s, ray, r1)
            }
        }
    }
}

impl Sphere {
    pub fn new(center: Vec3, radius: i64, material: Material) -> (r: Sphere)
        ensures
            r == (Sphere { center, radius, material }),
    {
        Sphere { center, radius, material }
    }

    fn hit_at(&self, ray: &Ray, root: i64) -> (r: Option<HitRecord>)
        requires
            sphere_wf_s(*self),
            ray_wf_s(*ray),
            0 <= root <= T_MAX,
        ensures
            r == sphere_hit_at_s(*self, *ray, root as int),
            r is Some ==> hit_record_wf_s(r->0) && r->0.t == root && r->0.material == self.material
                && dot_s(ray.direction, r->0.normal) <= 0,
    {
        let p = ray.at(root);
        if p.x < -REACH_MAX || p.x > REACH_MAX || p.y < -REACH_MAX || p.y > REACH_MAX
            || p.z < -REACH_MAX || p.z > REACH_MAX {
            None
        } else {
            let ox = div_fp(p.x - self.center.x, self.radius);
            let oy = div_fp(p.y - self.center.y, self.radius);
            let oz = div_fp(p.z - self.center.z, self.radius);
            let outward = Vec3::new(ox, oy, oz);
            proof {
                assert(outward == sphere_outward_s(*self, at_s(*ray, root as int)));
            }
            let lim = 2 * SCALE;
            if ox < -lim || ox > lim || oy < -lim || oy > lim || oz < -lim || oz > lim {
                None
            } else {
                Some(HitRecord::new(p, outward, root, ray, self.material))
            }
        }
    }

    /// Nearest valid intersection within `[t_min, t_max]`, or `None`.
    pub fn hit(&self, ray: &Ray, t_min: i64, t_max: i64) -> (r: Option<HitRecord>)
        requires
            sphere_wf_s(*self),
            ray_wf_s(*ray),
            0 <= t_min <= T_MAX,
            0 <= t_max <= T_MAX,
        ensures
            r == sphere_hit_s(*self, *ray, t_min, t_max),
            r is Some ==> hit_record_wf_s(r->0) && t_min <= r->0.t <= t_max && r->0.material
                == self.material && dot_s(ray.direction, r->0.normal) <= 0,
    {
        let oc = ray.origin.sub(self.center);
        proof {
            lemma_dot_self_nonneg(ray.direction);
            lemma_dot_self_nonneg(oc);
            lemma_dot_s_bound(
                ray.direction,
                ray.direction,
                0x200_0000,
                0x200_0000,
                0x4_0000_0000,
            );
            lemma_dot_s_bound(oc, ray.direction, 0x1400_0000, 0x200_0000, 0x28_0000_0000);
            lemma_dot_s_bound(oc, oc, 0x1400_0000, 0x1400_0000, 0x190_0000_0000);
            lemma_abs_mul(
                self.radius as int,
                self.radius as int,
                RAD_MAX as int,
                RAD_MAX as int,
            );
            lemma_fmul_bound(self.radius as int, self.radius as int, 0x10_0000_0000);
        }
        let a = ray.direction.dot(ray.direction);
        let half_b = oc.dot(ray.direction);
        let rr = mul_fp(self.radius, self.radius);
        let c = oc.dot(oc) - rr;
        if a < 1 {
            return None;
        }
        proof {
            let hb = half_b as int;
            let ai = a as int;
            let ci = c as int;
            lemma_abs_mul(hb, hb, 0x78_0000_0000, 0x78_0000_0000);
            assert(0x78_0000_0000 * 0x78_0000_0000 == 0x3840_0000_0000_0000 * (SCALE as int))
                by (nonlinear_arith)
                requires
                    SCALE == 65536,
            ;
            lemma_fmul_bound(hb, hb, 0x3840_0000_0000_0000);
            lemma_abs_mul(ai, ci, 0xC_0000_0000, 0x4C0_0000_0000);
            assert(0xC_0000_0000 * 0x4C0_0000_0000 == 0x3900_0000_0000_0000 * (SCALE as int))
                by (nonlinear_arith)
                requires
                    SCALE == 65536,
            ;
            lemma_fmul_bound(ai, ci, 0x3900_0000_0000_0000);
        }
        let disc = mul_fp(half_b, half_b) - mul_fp(a, c);
        if disc < 0 {
            return None;
        }
        let sqrtd = sqrt_fp(disc);
        let r1 = div_fp(-half_b - sqrtd, a);
        if r1 < t_min || r1 > t_max {
            let r2 = div_fp(-half_b + sqrtd, a);
            if r2 < t_min || r2 > t_max {
                None
            } else {
                self.hit_at(ray, r2)
            }
        } else {
            self.hit_at(ray, r1)
        }
    }
}

/// For a ray whose origin lies on the line through the sphere's center
/// (`oc = k * d`), the exact quadratic `a t^2 + 2 half_b t + c` built from the
/// unrounded dot products has discriminant `a * rad^2 > 0`: both roots are
/// real. This is the unrounded counterpart of the coefficients `Sphere::hit`
/// computes in fixed point.
#[verifier::rlimit(100)]
pub proof fn lemma_ray_through_center(
    oc_x: int,
    oc_y: int,
    oc_z: int,
    d_x: int,
    d_y: int,
    d_z: int,
    k: int,
    rad: int,
)
    requires
        oc_x == k * d_x,
        oc_y == k * d_y,
        oc_z == k * d_z,
        rad != 0,
        d_x * d_x + d_y * d_y + d_z * d_z > 0,
    ensures
        ({
            let a = d_x * d_x + d_y * d_y + d_z * d_z;
            let half_b = oc_x * d_x + oc_y * d_y + oc_z * d_z;
            let c = oc_x * oc_x + oc_y * oc_y + oc_z * oc_z - rad * rad;
            half_b * half_b - a * c == a * (rad * rad) && half_b * half_b - a * c > 0
        }),
{
    let a = d_x * d_x + d_y * d_y + d_z * d_z;
    let half_b = oc_x * d_x + oc_y * d_y + oc_z * d_z;
    let c = oc_x * oc_x + oc_y * oc_y + oc_z * oc_z - rad * rad;
    assert(half_b == k * a) by (nonlinear_arith)
        requires
            oc_x == k * d_x,
            oc_y == k * d_y,
            oc_z == k * d_z,
            half_b == oc_x * d_x + oc_y * d_y + oc_z * d_z,
            a == d_x * d_x + d_y * d_y + d_z * d_z,
    ;
    assert(oc_x * oc_x + oc_y * oc_y + oc_z * oc_z == k * k * a) by (nonlinear_arith)
        requires
            oc_x == k * d_x,
            oc_y == k * d_y,
            oc_z == k * d_z,
            a == d_x * d_x + d_y * d_y + d_z * d_z,
    ;
    assert(half_b * half_b - a * c == a * (rad * rad)) by (nonlinear_arith)
        requires
            half_b == k * a,
            c == k * k * a - rad * rad,
    ;
    assert(a * (rad * rad) > 0) by (nonlinear_arith)
        requires
            a > 0,
            rad != 0,
    ;
}

/// Any quadratic's two roots `(-half_b ± sqrt(disc)) / a` are symmetric about
/// the closest-approach parameter `-half_b / a`: their numerators sum to
/// `-2 half_b`. For a tangent ray — discriminant exactly zero — the roots
/// coincide: exactly one valid root exists.
pub proof fn lemma_roots_symmetric(half_b: int, disc: int, s: int)
    requires
        0 <= disc,
        0 <= s,
        s * s == disc,
    ensures
        (-half_b - s) + (-half_b + s) == 2 * (-half_b),
        disc == 0 ==> -half_b - s == -half_b + s,
{
    if disc == 0 {
        assert(s == 0) by (nonlinear_arith)
            requires
                s * s == 0,
                s >= 0,
        ;
    }
}

/// Flipping the sign of a sphere's radius leaves every hit at the same `t`
/// and the same point, flips the outward normal to the opposite direction,
/// and (whenever the ray is not exactly tangent) flips the recorded
/// front-face flag while the corrected normal stays the same.
pub proof fn lemma_negative_radius(s: Sphere, ray: Ray, t_min: i64, t_max: i64)
    requires
        sphere_wf_s(s),
        ray_wf_s(ray),
        0 <= t_min <= T_MAX,
        0 <= t_max <= T_MAX,
    ensures
        ({
            let flipped = Sphere { center: s.center, radius: (-s.radius) as i64, material: s.material };
            let h1 = sphere_hit_s(s, ray, t_min, t_max);
            let h2 = sphere_hit_s(flipped, ray, t_min, t_max);
            &&& (h1 is Some <==> h2 is Some)
            &&& (h1 is Some ==> {
                let p = h1->0.p;
                &&& h2->0.t == h1->0.t
                &&& h2->0.p == p
                &&& sphere_outward_s(flipped, p) == neg_v(sphere_outward_s(s, p))
                &&& (dot_s(ray.direction, sphere_outward_s(s, p)) != 0 ==> h2->0.front_face
                    == !h1->0.front_face && h2->0.normal == h1->0.normal)
            })
        }),
{
    let flipped = Sphere { center: s.center, radius: (-s.radius) as i64, material: s.material };
    let rad = s.radius as int;
    lemma_fmul_neg(rad, -rad);
    lemma_fmul_neg(rad, rad);
    assert(fmul_s(-rad, -rad) == fmul_s(rad, rad)) by {
        lemma_fmul_neg(-rad, rad);
        lemma_fmul_neg(rad, rad);
        assert(fmul_s(-rad, rad) == -fmul_s(rad, rad));
        assert(fmul_s(-rad, -rad) == -fmul_s(-rad, rad));
    }
    // the quadratic, its roots, and the chosen branch are all identical
    let oc = sub_v(ray.origin, s.center);
    let a = dot_s(ray.direction, ray.direction);
    let half_b = dot_s(oc, ray.direction);
    let c = dot_s(oc, oc) - fmul_s(rad, rad);
    if a >= 1 {
        let disc = fmul_s(half_b, half_b) - fmul_s(a, c);
        if disc >= 0 {
            let sqrtd = fsqrt_s(disc);
            let r1 = fdiv_s(-half_b - sqrtd, a);
            let r2 = fdiv_s(-half_b + sqrtd, a);
            let root = if !(r1 < t_min || r1 > t_max) {
                r1
            } else {
                r2
            };
            if !(r1 < t_min || r1 > t_max) || !(r2 < t_min || r2 > t_max) {
                lemma_hit_at_negative_radius(s, flipped, ray, root);
            }
        }
    }
}

proof fn lemma_hit_at_negative_radius(s: Sphere, flipped: Sphere, ray: Ray, root: int)
    requires
        sphere_wf_s(s),
        ray_wf_s(ray),
        flipped == (Sphere { center: s.center, radius: (-s.radius) as i64, material: s.material }),
        0 <= root <= T_MAX,
    ensures
        ({
            let h1 = sphere_hit_at_s(s, ray, root);
            let h2 = sphere_hit_at_s(flipped, ray, root);
            &&& (h1 is Some <==> h2 is Some)
            &&& (h1 is Some ==> {
                let p = h1->0.p;
                &&& h2->0.t == h1->0.t
                &&& h2->0.p == p
                &&& sphere_outward_s(flipped, p) == neg_v(sphere_outward_s(s, p))
                &&& (dot_s(ray.direction, sphere_outward_s(s, p)) != 0 ==> h2->0.front_face
                    == !h1->0.front_face && h2->0.normal == h1->0.normal)
            })
        }),
{
    let p = at_s(ray, root);
    let rad = s.radius as int;
    if bounded_s(p, REACH_MAX as int) {
        lemma_fdiv_neg(p.x - s.center.x, rad);
        lemma_fdiv_neg(p.y - s.center.y, rad);
        lemma_fdiv_neg(p.z - s.center.z, rad);
        lemma_fdiv_bound(p.x - s.center.x, rad);
        lemma_fdiv_bound(p.y - s.center.y, rad);
        lemma_fdiv_bound(p.z - s.center.z, rad);
        let out1 = sphere_outward_s(s, p);
        let out2 = sphere_outward_s(flipped, p);
        assert(out2 == neg_v(out1));
        assert(bounded_s(out2, 0x2_0000) <==> bounded_s(out1, 0x2_0000));
        if bounded_s(out1, 0x2_0000) {
            lemma_dot_neg(ray.direction, out1);
        }
    }
}

} // verus!
