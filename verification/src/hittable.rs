//! Hit records and the scene: an ordered collection of spheres answering
//! nearest-hit queries by a linear scan that narrows the search interval to
//! the closest hit found so far.

use crate::fixed::{REACH_MAX, SCALE, T_MAX};
use crate::material::{material_wf_s, Material};
use crate::ray::{ray_wf_s, Ray};
use crate::sphere::{sphere_hit_s, sphere_wf_s, Sphere};
use crate::vec3::{bounded_s, dot_s, lemma_dot_neg, neg_v, Vec3};
use vstd::prelude::*;

verus! {

#[derive(Clone, Copy, Debug)]
pub struct HitRecord {
    pub p: Vec3,
    pub normal: Vec3,
    pub t: i64,
    pub front_face: bool,
    pub material: Material,
}

/// The record an intersection at `hit_p` with outward normal `outward`
/// produces: the stored normal is corrected to oppose the ray.
pub open spec fn hit_record_s(
    hit_p: Vec3,
    outward: Vec3,
    t: i64,
    ray: Ray,
    material: Material,
) -> HitRecord {
    let front_face = dot_s(ray.direction, outward) < 0;
    HitRecord {
        p: hit_p,
        normal: if front_face {
            outward
        } else {
            neg_v(outward)
        },
        t,
        front_face,
        material,
    }
}

/// Well-formedness carried from a hit query: the point sits inside the
/// reachable world bounds, the corrected normal is near unit length, the
/// parameter lies in the queried interval, and the material is a valid one.
pub open spec fn hit_record_wf_s(rec: HitRecord) -> bool {
    &&& bounded_s(rec.p, REACH_MAX as int)
    &&& bounded_s(rec.normal, 2 * (SCALE as int))
    &&& 0 <= rec.t <= T_MAX
    &&& material_wf_s(rec.material)
}

impl HitRecord {
    /// Builds the record for a hit, flipping the outward normal when it does
    /// not oppose the incoming ray, so that afterwards
    /// `dot(ray.direction, normal) <= 0` always holds.
    pub fn new(hit_p: Vec3, outward_normal: Vec3, t: i64, ray: &Ray, material: Material) -> (r:
        HitRecord)
        requires
            bounded_s(outward_normal, 0x3fff_ffff_ffff_ffff),
            bounded_s(ray.direction, crate::fixed::DOT_ARG_MAX as int),
            bounded_s(outward_normal, crate::fixed::DOT_ARG_MAX as int),
        ensures
            r == hit_record_s(hit_p, outward_normal, t, *ray, material),
            dot_s(ray.direction, r.normal) <= 0,
    {
        let front_face = ray.direction.dot(outward_normal) < 0;
        let normal = if front_face {
            outward_normal
        } else {
            proof {
                lemma_dot_neg(ray.direction, outward_normal);
            }
            outward_normal.neg()
        };
        HitRecord { p: hit_p, normal, t, front_face, material }
    }
}

/// The scene: every sphere in it, scanned in order.
pub struct HittableList {
    pub list: Vec<Sphere>,
}

pub open spec fn list_wf_s(l: Seq<Sphere>) -> bool {
    forall|i: int| 0 <= i < l.len() ==> sphere_wf_s(#[trigger] l[i])
}

/// The nearest hit among the first `n` spheres: scanning forward, each
/// accepted hit narrows the upper bound of the search interval to its own
/// `t`, so a later sphere replaces the current record only with a strictly
/// nearer hit (ties keep the earliest sphere in scan order).
pub open spec fn list_hit_upto_s(
    l: Seq<Sphere>,
    n: nat,
    ray: Ray,
    t_min: i64,
    t_max: i64,
) -> Option<HitRecord>
    decreases n,
{
    if n == 0 {
        None
    } else {
        let prev = list_hit_upto_s(l, (n - 1) as nat, ray, t_min, t_max);
        let bound = match prev {
            Some(h) => h.t,
            None => t_max,
        };
        match sphere_hit_s(l[n - 1], ray, t_min, bound) {
            Some(h) => if prev is Some && h.t >= prev->0.t {
                prev
            } else {
                Some(h)
            },
            None => prev,
        }
    }
}

/// The nearest hit in the whole scene.
pub open spec fn list_hit_s(l: Seq<Sphere>, ray: Ray, t_min: i64, t_max: i64) -> Option<
    HitRecord,
> {
    list_hit_upto_s(l, l.len(), ray, t_min, t_max)
}

impl HittableList {
    pub fn new() -> (r: HittableList)
        ensures
            r.list@.len() == 0,
    {
        HittableList { list: Vec::new() }
    }

    pub fn add(&mut self, sphere: Sphere)
        ensures
            final(self).list@ == old(self).list@.push(sphere),
    {
        self.list.push(sphere);
    }

    /// The nearest hit of `ray` in `(t_min, t_max]`, or `None`.
    pub fn hit(&self, ray: &Ray, t_min: i64, t_max: i64) -> (r: Option<HitRecord>)
        requires
            list_wf_s(self.list@),
            ray_wf_s(*ray),
            0 <= t_min <= T_MAX,
            0 <= t_max <= T_MAX,
        ensures
            r == list_hit_s(self.list@, *ray, t_min, t_max),
            r is Some ==> hit_record_wf_s(r->0) && t_min <= r->0.t <= t_max && dot_s(
                ray.direction,
                r->0.normal,
            ) <= 0,
    {
        let mut closest: Option<HitRecord> = None;
        let mut closest_t: i64 = t_max;
        let n = self.list.len();
        for idx in 0..n
            invariant
                n == self.list@.len(),
                list_wf_s(self.list@),
                ray_wf_s(*ray),
                0 <= t_min <= T_MAX,
                0 <= t_max <= T_MAX,
                closest == list_hit_upto_s(self.list@, idx as nat, *ray, t_min, t_max),
                closest is Some ==> closest_t == closest->0.t,
                closest is None ==> closest_t == t_max,
                closest is Some ==> hit_record_wf_s(closest->0) && t_min <= closest->0.t <= t_max
                    && dot_s(ray.direction, closest->0.normal) <= 0,
        {
            let obj = &self.list[idx];
            if let Some(rec) = obj.hit(ray, t_min, closest_t) {
                let replace = match closest {
                    Some(prev) => rec.t < prev.t,
                    None => true,
                };
                if replace {
                    closest_t = rec.t;
                    closest = Some(rec);
                }
            }
        }
        closest
    }
}

} // verus!
