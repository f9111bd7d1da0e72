//! Rejection sampling of points in the unit sphere and unit disk. The
//! rejection loop is given a fixed attempt budget so that every sample is a
//! total function of the generator state; the fallback after an exhausted
//! budget (probability below 2^-56 per sample) is a fixed interior axis
//! point, so the result always lies strictly inside the sampled region.

use crate::fixed::SCALE;
use crate::rng::{next_state_s, sym_draw_s, Rng};
use crate::vec3::{bounded_s, dot_s, unit_s, Vec3};
use vstd::prelude::*;

verus! {

/// Attempts granted to one rejection-sampled point.
pub const SAMPLE_TRIES: u64 = 64;

/// The point rejection sampling inside the unit sphere yields from state `s`
/// with `tries` attempts left, together with the state it leaves behind.
/// A candidate is accepted when its squared length lies in `[1/4, 1)`:
/// strictly inside the sphere, and long enough (at least half a unit) that
/// normalizing it is accurate.
pub open spec fn in_unit_sphere_s(s: u64, tries: nat) -> (Vec3, u64)
    decreases tries,
{
    if tries == 0 {
        (Vec3 { x: (SCALE - 1) as i64, y: 0, z: 0 }, s)
    } else {
        let x = sym_draw_s(s) as i64;
        let s1 = next_state_s(s);
        let y = sym_draw_s(s1) as i64;
        let s2 = next_state_s(s1);
        let z = sym_draw_s(s2) as i64;
        let s3 = next_state_s(s2);
        let v = Vec3 { x, y, z };
        if 16384 <= dot_s(v, v) < SCALE {
            (v, s3)
        } else {
            in_unit_sphere_s(s3, (tries - 1) as nat)
        }
    }
}

/// The point rejection sampling inside the unit disk (z = 0) yields from
/// state `s` with `tries` attempts left, with the state it leaves behind.
pub open spec fn in_unit_disk_s(s: u64, tries: nat) -> (Vec3, u64)
    decreases tries,
{
    if tries == 0 {
        (Vec3 { x: 0, y: 0, z: 0 }, s)
    } else {
        let x = sym_draw_s(s) as i64;
        let s1 = next_state_s(s);
        let y = sym_draw_s(s1) as i64;
        let s2 = next_state_s(s1);
        let v = Vec3 { x, y, z: 0 };
        if dot_s(v, v) < SCALE {
            (v, s2)
        } else {
            in_unit_disk_s(s2, (tries - 1) as nat)
        }
    }
}

/// The unit vector sampling yields from state `s`.
pub open spec fn unit_vector_s(s: u64) -> (Vec3, u64) {
    let (v, s1) = in_unit_sphere_s(s, SAMPLE_TRIES as nat);
    (unit_s(v), s1)
}

fn in_unit_sphere_go(rng: &mut Rng, tries: u64) -> (r: Vec3)
    ensures
        r == in_unit_sphere_s(old(rng).state, tries as nat).0,
        final(rng).state == in_unit_sphere_s(old(rng).state, tries as nat).1,
        bounded_s(r, SCALE as int),
        16384 <= dot_s(r, r) < SCALE,
    decreases tries,
{
    if tries == 0 {
        proof {
            lemma_fallback_point_interior();
        }
        Vec3 { x: SCALE - 1, y: 0, z: 0 }
    } else {
        let x = rng.next_sym();
        let y = rng.next_sym();
        let z = rng.next_sym();
        let v = Vec3::new(x, y, z);
        let d = v.length_squared();
        if 16384 <= d && d < SCALE {
            v
        } else {
            in_unit_sphere_go(rng, tries - 1)
        }
    }
}

/// The fallback point's squared length: one raw step inside the sphere,
/// and far above the quarter-unit acceptance floor.
proof fn lemma_fallback_point_interior()
    ensures
        dot_s(Vec3 { x: (SCALE - 1) as i64, y: 0, z: 0 }, Vec3 { x: (SCALE - 1) as i64, y: 0, z: 0 })
            == SCALE - 2,
{
    let s = SCALE as int;
    assert((s - 1) * (s - 1) == s * (s - 2) + 1) by (nonlinear_arith)
        requires
            s == 65536,
    ;
    vstd::arithmetic::div_mod::lemma_div_multiples_vanish_fancy(s - 2, 1, s);
    vstd::arithmetic::div_mod::lemma_div_of0(s);
}

/// A uniformly sampled point strictly inside the unit sphere, never shorter
/// than half a unit.
pub fn random_in_unit_sphere(rng: &mut Rng) -> (r: Vec3)
    ensures
        r == in_unit_sphere_s(old(rng).state, SAMPLE_TRIES as nat).0,
        final(rng).state == in_unit_sphere_s(old(rng).state, SAMPLE_TRIES as nat).1,
        bounded_s(r, SCALE as int),
        16384 <= dot_s(r, r) < SCALE,
{
    in_unit_sphere_go(rng, SAMPLE_TRIES)
}

/// A uniformly sampled point on the unit sphere: a point inside it,
/// normalized. The acceptance floor makes the normalization accurate: the
/// result's squared length is within 64 raw steps (under 0.001) of one.
pub fn random_unit_vector(rng: &mut Rng) -> (r: Vec3)
    ensures
        r == unit_vector_s(old(rng).state).0,
        final(rng).state == unit_vector_s(old(rng).state).1,
        bounded_s(r, 0x2_0000),
        (SCALE as int) - 64 <= dot_s(r, r) <= (SCALE as int) + 64,
{
    let v = random_in_unit_sphere(rng);
    proof {
        crate::vec3::lemma_unit_s_length(v);
    }
    v.unit()
}

fn in_unit_disk_go(rng: &mut Rng, tries: u64) -> (r: Vec3)
    ensures
        r == in_unit_disk_s(old(rng).state, tries as nat).0,
        final(rng).state == in_unit_disk_s(old(rng).state, tries as nat).1,
        bounded_s(r, SCALE as int),
        0 <= dot_s(r, r) < SCALE,
        r.z == 0,
    decreases tries,
{
    if tries == 0 {
        Vec3 { x: 0, y: 0, z: 0 }
    } else {
        let x = rng.next_sym();
        let y = rng.next_sym();
        let v = Vec3::new(x, y, 0);
        let d = v.length_squared();
        if d < SCALE {
            v
        } else {
            in_unit_disk_go(rng, tries - 1)
        }
    }
}

/// A uniformly sampled point strictly inside the unit disk in the xy plane.
pub fn random_in_unit_disk(rng: &mut Rng) -> (r: Vec3)
    ensures
        r == in_unit_disk_s(old(rng).state, SAMPLE_TRIES as nat).0,
        final(rng).state == in_unit_disk_s(old(rng).state, SAMPLE_TRIES as nat).1,
        bounded_s(r, SCALE as int),
        0 <= dot_s(r, r) < SCALE,
        r.z == 0,
{
    in_unit_disk_go(rng, SAMPLE_TRIES)
}

} // verus!
