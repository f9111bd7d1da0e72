//! Parametric rays with point evaluation and the two pure geometric
//! transforms — reflection and refraction — shared by the metal and
//! dielectric materials.

use crate::fixed::{abs_i, clamp_s, fsqrt_s, DIR_MAX, REACH_MAX, SCALE};
use crate::fixed::{clamp_fp, sqrt_fp};
use crate::hittable::HitRecord;
use crate::vec3::{
    add_v, bounded_s, dot_s, lemma_dot_s_bound, lemma_scale_v_bound, neg_v, scale_v, sub_v,
    unit_or_zero_s, Vec3,
};
use vstd::prelude::*;

verus! {

#[derive(Clone, Copy, PartialEq, Eq, Structural, Debug)]
pub struct Ray {
    pub origin: Vec3,
    pub direction: Vec3,
}

/// A ray the world model admits: origin within the world bounds, direction
/// within the direction bounds.
pub open spec fn ray_wf_s(r: Ray) -> bool {
    bounded_s(r.origin, REACH_MAX as int) && bounded_s(r.direction, DIR_MAX as int)
}

pub open spec fn at_s(r: Ray, t: int) -> Vec3 {
    add_v(r.origin, scale_v(t, r.direction))
}

/// The ideal mirror reflection of `v` about the normal `n`: `v - 2 (v . n) n`.
pub open spec fn reflect_dir_s(v: Vec3, n: Vec3) -> Vec3 {
    sub_v(v, scale_v(2 * dot_s(v, n), n))
}

pub open spec fn reflected_s(r: Ray, rec: HitRecord) -> Ray {
    Ray { origin: rec.p, direction: reflect_dir_s(unit_or_zero_s(r.direction), rec.normal) }
}

/// Vector-form Snell refraction of the normalized incoming direction. The
/// parallel component's radicand is clamped into `[0, 1]`: it cannot exceed
/// one for a genuine refraction, and clamping keeps the evaluation total.
pub open spec fn refract_dir_s(v: Vec3, n: Vec3, ratio: int) -> Vec3 {
    let cos_theta = if dot_s(neg_v(v), n) > SCALE as int {
        SCALE as int
    } else {
        dot_s(neg_v(v), n)
    };
    let perp = scale_v(ratio, add_v(v, scale_v(cos_theta, n)));
    let k = clamp_s(SCALE as int - dot_s(perp, perp), 0, SCALE as int);
    let parallel = neg_v(scale_v(fsqrt_s(k), n));
    add_v(perp, parallel)
}

pub open spec fn refracted_s(r: Ray, rec: HitRecord, ratio: int) -> Ray {
    Ray { origin: rec.p, direction: refract_dir_s(unit_or_zero_s(r.direction), rec.normal, ratio) }
}

impl Ray {
    pub fn new(origin: Vec3, direction: Vec3) -> (r: Ray)
        ensures
            r == (Ray { origin, direction }),
    {
        Ray { origin, direction }
    }

    /// The point the ray reaches at parameter `t`.
    pub fn at(&self, t: i64) -> (r: Vec3)
        requires
            ray_wf_s(*self),
            abs_i(t as int) <= T_ARG_MAX as int,
        ensures
            r == at_s(*self, t as int),
            bounded_s(r, 0x81_0000_0000),
    {
        proof {
            lemma_scale_v_bound(t as int, self.direction, 0x4000_0000, 0x200_0000, 0x80_0000_0000);
        }
        self.origin.add(self.direction.scale(t))
    }

    /// The ray mirror-reflected at a hit point.
    pub fn reflected(&self, rec: &HitRecord) -> (r: Ray)
        requires
            ray_wf_s(*self),
            bounded_s(rec.normal, 0x2_0000),
            bounded_s(rec.p, REACH_MAX as int),
        ensures
            r == reflected_s(*self, *rec),
            bounded_s(r.direction, 0x80_0000),
            r.origin == rec.p,
    {
        let v = self.direction.unit_or_zero();
        let d = v.dot(rec.normal);
        proof {
            lemma_dot_s_bound(v, rec.normal, 0x2_0000, 0x2_0000, 0x4_0000);
            lemma_scale_v_bound(
                2 * (d as int),
                rec.normal,
                0x18_0000,
                0x2_0000,
                0x60_0000,
            );
        }
        Ray { origin: rec.p, direction: v.sub(rec.normal.scale(2 * d)) }
    }

    /// The ray refracted at a hit point for the given refraction ratio.
    pub fn refracted(&self, rec: &HitRecord, refraction_ratio: i64) -> (r: Ray)
        requires
            ray_wf_s(*self),
            bounded_s(rec.normal, 0x2_0000),
            bounded_s(rec.p, REACH_MAX as int),
            1 <= refraction_ratio <= 0x4_0000,
        ensures
            r == refracted_s(*self, *rec, refraction_ratio as int),
            bounded_s(r.direction, DIR_MAX as int),
            r.origin == rec.p,
    {
        let v = self.direction.unit_or_zero();
        let mc = v.neg().dot(rec.normal);
        let cos_theta = if mc > SCALE {
            SCALE
        } else {
            mc
        };
        proof {
            lemma_dot_s_bound(
                neg_v(v),
                rec.normal,
                0x2_0000,
                0x2_0000,
                0x4_0000,
            );
            lemma_scale_v_bound(
                cos_theta as int,
                rec.normal,
                0xC_0000,
                0x2_0000,
                0x30_0000,
            );
        }
        let inner = v.add(rec.normal.scale(cos_theta));
        proof {
            lemma_scale_v_bound(
                refraction_ratio as int,
                inner,
                0x4_0000,
                0x32_0000,
                0xC8_0000,
            );
        }
        let perp = inner.scale(refraction_ratio);
        let plen = perp.length_squared();
        let k = clamp_fp(SCALE - plen, 0, SCALE);
        let sq = sqrt_fp(k);
        proof {
            assert((sq as int) * (sq as int) <= (SCALE as int) * (SCALE as int));
            assert(sq <= SCALE) by (nonlinear_arith)
                requires
                    (sq as int) * (sq as int) <= (SCALE as int) * (SCALE as int),
                    sq >= 0,
                    SCALE == 65536,
            ;
            lemma_scale_v_bound(sq as int, rec.normal, 0x1_0000, 0x2_0000, 0x2_0000);
        }
        let parallel = rec.normal.scale(sq).neg();
        Ray { origin: rec.p, direction: perp.add(parallel) }
    }
}

/// Largest ray parameter magnitude `at` accepts; covers the whole search
/// interval `[0, T_MAX]`.
pub const T_ARG_MAX: i64 = 0x4000_0000;

} // verus!
