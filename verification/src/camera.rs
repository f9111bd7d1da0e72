//! The thin-lens camera and the recursive path integrator. The camera is
//! built once from look-from/look-at/up, the tangent of half the vertical
//! field of view, aperture, focus distance and aspect ratio; `get_ray`
//! samples a lens point for depth of field. `ray_color` recursively traces a
//! ray to a bounded depth, combining scene hits and material scattering with
//! the sky-gradient background.

use crate::fixed::{
    clamp_s, div_t, fmul_s, lemma_abs_mul, lemma_fmul_bound, lemma_fmul_nonneg, SCALE, T_EPS,
    T_MAX,
};
use crate::fixed::{clamp_fp, mul_fp};
use crate::helpers::{in_unit_disk_s, random_in_unit_disk, SAMPLE_TRIES};
use crate::hittable::{list_hit_s, list_wf_s, HittableList};
use crate::material::scatter_s;
use crate::ray::{ray_wf_s, Ray};
use crate::rng::Rng;
use crate::sphere::Sphere;
use crate::vec3::{
    add_v, bounded_s, cross_s, dot_s, hadamard_v, in_unit_color, lemma_cross_bound,
    lemma_hadamard_unit, lemma_scale_v_bound, scale_v, sub_v, unit_s, unit_or_zero_s, zero_v, Vec3,
};
use vstd::arithmetic::div_mod::{lemma_div_pos_is_pos, lemma_fundamental_div_mod, lemma_mod_bound};
use vstd::prelude::*;

verus! {

/// Half of one unit in raw steps; scaling by it halves a value.
pub const HALF: i64 = 32768;

#[derive(Clone, Copy, Debug)]
pub struct Camera {
    pub origin: Vec3,
    pub lower_left_corner: Vec3,
    pub horizontal: Vec3,
    pub vertical: Vec3,
    pub lens_radius: i64,
    pub u: Vec3,
    pub v: Vec3,
}

/// The field bounds every constructed camera satisfies; they keep every ray
/// `get_ray` builds within the world's ray bounds.
pub open spec fn camera_wf_s(c: Camera) -> bool {
    &&& bounded_s(c.origin, 0x400_0000)
    &&& bounded_s(c.horizontal, 0x60_0000)
    &&& bounded_s(c.vertical, 0xC0_0000)
    &&& bounded_s(c.lower_left_corner, 0x800_0000)
    &&& bounded_s(sub_v(c.lower_left_corner, c.origin), 0xA8_0000)
    &&& bounded_s(c.u, 0x2_0000)
    &&& bounded_s(c.v, 0x8_0000)
    &&& 0 <= c.lens_radius <= 0x2_0000
}

/// The camera a parameter set constructs: orthonormal-ish basis from the
/// look direction and up vector, viewport extents from the field-of-view
/// tangent, aspect ratio and focus distance, lens radius of half the
/// aperture.
/// The orthonormal-ish camera basis: `w` along the reversed look direction,
/// `u` across, `v` up.
pub open spec fn camera_basis_s(look_from: Vec3, look_at: Vec3, vup: Vec3) -> (Vec3, Vec3, Vec3) {
    let w = unit_s(sub_v(look_from, look_at));
    let u = unit_s(cross_s(vup, w));
    let v = cross_s(w, u);
    (w, u, v)
}

pub open spec fn camera_new_s(
    look_from: Vec3,
    look_at: Vec3,
    vup: Vec3,
    tan_half_fov: i64,
    aperture: i64,
    focus_dist: i64,
    aspect_ratio: i64,
) -> Camera {
    let viewport_height = 2 * (tan_half_fov as int);
    let viewport_width = fmul_s(viewport_height, aspect_ratio as int);
    let (w, u, v) = camera_basis_s(look_from, look_at, vup);
    let h = scale_v(fmul_s(focus_dist as int, viewport_width), u);
    let vert = scale_v(fmul_s(focus_dist as int, viewport_height), v);
    let llc = sub_v(
        sub_v(sub_v(look_from, scale_v(HALF as int, h)), scale_v(HALF as int, vert)),
        scale_v(focus_dist as int, w),
    );
    Camera {
        origin: look_from,
        lower_left_corner: llc,
        horizontal: h,
        vertical: vert,
        lens_radius: fmul_s(HALF as int, aperture as int) as i64,
        u,
        v,
    }
}

/// The ray sampled for normalized image coordinates `(s, t)` from generator
/// state `st`: a lens-disk offset of the origin, aimed at the viewport point.
pub open spec fn get_ray_s(c: Camera, s: i64, t: i64, st: u64) -> (Ray, u64) {
    let (d, s1) = in_unit_disk_s(st, SAMPLE_TRIES as nat);
    let rd = scale_v(c.lens_radius as int, d);
    let offset = add_v(scale_v(rd.x as int, c.u), scale_v(rd.y as int, c.v));
    (
        Ray {
            origin: add_v(c.origin, offset),
            direction: sub_v(
                sub_v(
                    add_v(
                        add_v(c.lower_left_corner, scale_v(s as int, c.horizontal)),
                        scale_v(t as int, c.vertical),
                    ),
                    c.origin,
                ),
                offset,
            ),
        },
        s1,
    )
}

fn camera_basis(look_from: Vec3, look_at: Vec3, vup: Vec3) -> (r: (Vec3, Vec3, Vec3))
    requires
        bounded_s(look_from, 0x400_0000),
        bounded_s(look_at, 0x400_0000),
        bounded_s(vup, 0x4_0000),
        dot_s(sub_v(look_from, look_at), sub_v(look_from, look_at)) >= SCALE,
        dot_s(
            cross_s(vup, unit_s(sub_v(look_from, look_at))),
            cross_s(vup, unit_s(sub_v(look_from, look_at))),
        ) >= 16384,
    ensures
        r == camera_basis_s(look_from, look_at, vup),
        bounded_s(r.0, 0x2_0000),
        bounded_s(r.1, 0x2_0000),
        bounded_s(r.2, 0x8_0000),
{
    let w = look_from.sub(look_at).unit();
    let cu = vup.cross(w);
    proof {
        lemma_cross_bound(vup, w, 0x4_0000, 0x2_0000, 0x8_0000);
    }
    let u = cu.unit();
    proof {
        lemma_cross_bound(w, u, 0x2_0000, 0x2_0000, 0x4_0000);
    }
    let v = w.cross(u);
    (w, u, v)
}

/// Assemble the camera record from its basis and viewport dimensions.
#[verifier::rlimit(100)]
#[verifier::spinoff_prover]
fn camera_frame(
    look_from: Vec3,
    u: Vec3,
    v: Vec3,
    w: Vec3,
    viewport_width: i64,
    viewport_height: i64,
    focus_dist: i64,
    aperture: i64,
) -> (r: Camera)
    requires
        bounded_s(look_from, 0x400_0000),
        bounded_s(u, 0x2_0000),
        bounded_s(v, 0x8_0000),
        bounded_s(w, 0x2_0000),
        0 <= viewport_width <= 0x4_0000,
        0 <= viewport_height <= 0x2_0000,
        1 <= focus_dist <= 0xC_0000,
        0 <= aperture <= 0x4_0000,
    ensures
        r.origin == look_from,
        r.u == u,
        r.v == v,
        r.horizontal == scale_v(fmul_s(focus_dist as int, viewport_width as int), u),
        r.vertical == scale_v(fmul_s(focus_dist as int, viewport_height as int), v),
        r.lower_left_corner == sub_v(
            sub_v(sub_v(look_from, scale_v(HALF as int, r.horizontal)), scale_v(HALF as int, r.vertical)),
            scale_v(focus_dist as int, w),
        ),
        r.lens_radius as int == fmul_s(HALF as int, aperture as int),
        camera_wf_s(r),
{
    proof {
        lemma_abs_mul(focus_dist as int, viewport_width as int, 0xC_0000, 0x4_0000);
        lemma_fmul_bound(focus_dist as int, viewport_width as int, 0x30_0000);
        lemma_abs_mul(focus_dist as int, viewport_height as int, 0xC_0000, 0x2_0000);
        lemma_fmul_bound(focus_dist as int, viewport_height as int, 0x18_0000);
    }
    let fw = mul_fp(focus_dist, viewport_width);
    let fh = mul_fp(focus_dist, viewport_height);
    proof {
        lemma_scale_v_bound(fw as int, u, 0x30_0000, 0x2_0000, 0x60_0000);
        lemma_scale_v_bound(fh as int, v, 0x18_0000, 0x8_0000, 0xC0_0000);
    }
    let h = u.scale(fw);
    let vert = v.scale(fh);
    proof {
        lemma_scale_v_bound(HALF as int, h, 0x8000, 0x60_0000, 0x30_0000);
        lemma_scale_v_bound(HALF as int, vert, 0x8000, 0xC0_0000, 0x60_0000);
        lemma_scale_v_bound(focus_dist as int, w, 0xC_0000, 0x2_0000, 0x18_0000);
        lemma_abs_mul(HALF as int, aperture as int, 0x8000, 0x4_0000);
        lemma_fmul_bound(HALF as int, aperture as int, 0x2_0000);
        lemma_fmul_nonneg(HALF as int, aperture as int);
    }
    let lower_left_corner = look_from.sub(h.scale(HALF)).sub(vert.scale(HALF)).sub(
        w.scale(focus_dist),
    );
    let lens_radius = mul_fp(HALF, aperture);
    Camera { origin: look_from, lower_left_corner, horizontal: h, vertical: vert, lens_radius, u, v }
}

impl Camera {
    /// Build a camera. The tangent of half the vertical field of view is
    /// passed directly (fixed point has no trigonometry); callers convert
    /// from degrees at the boundary. The look direction must be at least a
    /// unit long and its cross product with the up vector at least half a
    /// unit (the up vector within sixty degrees of perpendicular to the look
    /// direction): fixed-point normalization is accurate on such inputs,
    /// where a near-raw-step direction would yield a badly skewed basis.
    pub fn new(
        look_from: Vec3,
        look_at: Vec3,
        vup: Vec3,
        tan_half_fov: i64,
        aperture: i64,
        focus_dist: i64,
        aspect_ratio: i64,
    ) -> (r: Camera)
        requires
            bounded_s(look_from, 0x400_0000),
            bounded_s(look_at, 0x400_0000),
            bounded_s(vup, 0x4_0000),
            1 <= tan_half_fov <= 0x1_0000,
            1 <= aspect_ratio <= 0x2_0000,
            0 <= aperture <= 0x4_0000,
            1 <= focus_dist <= 0xC_0000,
            dot_s(sub_v(look_from, look_at), sub_v(look_from, look_at)) >= SCALE,
            dot_s(
                cross_s(vup, unit_s(sub_v(look_from, look_at))),
                cross_s(vup, unit_s(sub_v(look_from, look_at))),
            ) >= 16384,
        ensures
            r == camera_new_s(
                look_from,
                look_at,
                vup,
                tan_half_fov,
                aperture,
                focus_dist,
                aspect_ratio,
            ),
            camera_wf_s(r),
    {
        let viewport_height = 2 * tan_half_fov;
        proof {
            lemma_abs_mul(viewport_height as int, aspect_ratio as int, 0x2_0000, 0x2_0000);
            lemma_fmul_bound(viewport_height as int, aspect_ratio as int, 0x4_0000);
            lemma_fmul_nonneg(viewport_height as int, aspect_ratio as int);
        }
        let viewport_width = mul_fp(viewport_height, aspect_ratio);
        let basis = camera_basis(look_from, look_at, vup);
        camera_frame(
            look_from,
            basis.1,
            basis.2,
            basis.0,
            viewport_width,
            viewport_height,
            focus_dist,
            aperture,
        )
    }

    /// The ray for normalized image-plane coordinates `(s, t)` in `[0, 1]`,
    /// with a random lens offset for depth of field.
    #[verifier::rlimit(100)]
    #[verifier::spinoff_prover]
    pub fn get_ray(&self, s: i64, t: i64, rng: &mut Rng) -> (r: Ray)
        requires
            camera_wf_s(*self),
            0 <= s <= SCALE,
            0 <= t <= SCALE,
        ensures
            r == get_ray_s(*self, s, t, old(rng).state).0,
            final(rng).state == get_ray_s(*self, s, t, old(rng).state).1,
            ray_wf_s(r),
    {
        let d = random_in_unit_disk(rng);
        proof {
            lemma_scale_v_bound(self.lens_radius as int, d, 0x2_0000, 0x1_0000, 0x2_0000);
        }
        let rd = d.scale(self.lens_radius);
        proof {
            lemma_scale_v_bound(rd.x as int, self.u, 0x2_0000, 0x2_0000, 0x4_0000);
            lemma_scale_v_bound(rd.y as int, self.v, 0x2_0000, 0x8_0000, 0x10_0000);
            lemma_scale_v_bound(s as int, self.horizontal, 0x1_0000, 0x60_0000, 0x60_0000);
            lemma_scale_v_bound(t as int, self.vertical, 0x1_0000, 0xC0_0000, 0xC0_0000);
        }
        let offset = self.u.scale(rd.x).add(self.v.scale(rd.y));
        Ray::new(
            self.origin.add(offset),
            self.lower_left_corner.add(self.horizontal.scale(s)).add(self.vertical.scale(t)).sub(
                self.origin,
            ).sub(offset),
        )
    }
}

/// The implicit sky light: a vertical white-to-light-blue gradient over the
/// normalized ray direction.
pub open spec fn background_s(ray: Ray) -> Vec3 {
    let u = unit_or_zero_s(ray.direction);
    let t = clamp_s(div_t(u.y + SCALE as int, 2), 0, SCALE as int);
    add_v(
        scale_v(SCALE as int - t, Vec3 { x: SCALE, y: SCALE, z: SCALE }),
        scale_v(t, Vec3 { x: 32768, y: 45875, z: 65536 }),
    )
}

/// The color assigned to a ray, and the generator state left behind:
/// black when the bounce budget is exhausted; on a hit, the scattered
/// recursion attenuated by the material (black when absorbed); on a miss,
/// the background gradient.
pub open spec fn ray_color_s(world: Seq<Sphere>, ray: Ray, depth: int, st: u64) -> (Vec3, u64)
    decreases depth,
{
    if depth <= 0 {
        (zero_v(), st)
    } else {
        match list_hit_s(world, ray, T_EPS, T_MAX) {
            Some(rec) => {
                let (sc, s1) = scatter_s(rec.material, ray, rec, st);
                match sc {
                    Some(pair) => {
                        let (c, s2) = ray_color_s(world, pair.0, depth - 1, s1);
                        (hadamard_v(pair.1, c), s2)
                    },
                    None => (zero_v(), s1),
                }
            },
            None => (background_s(ray), st),
        }
    }
}

/// A convex blend of two unit colors with weight `t` stays in the unit
/// interval channel-wise.
proof fn lemma_lerp_unit(t: int, c1: int, c2: int)
    requires
        0 <= t <= 65536,
        0 <= c1 <= 65536,
        0 <= c2 <= 65536,
    ensures
        0 <= fmul_s(65536 - t, c1) + fmul_s(t, c2) <= 65536,
{
    let s = 65536int;
    lemma_fmul_nonneg(s - t, c1);
    lemma_fmul_nonneg(t, c2);
    assert((s - t) * c1 >= 0 && t * c2 >= 0) by (nonlinear_arith)
        requires
            0 <= t <= s,
            0 <= c1,
            0 <= c2,
    ;
    lemma_fundamental_div_mod((s - t) * c1, s);
    lemma_mod_bound((s - t) * c1, s);
    lemma_fundamental_div_mod(t * c2, s);
    lemma_mod_bound(t * c2, s);
    assert(fmul_s(s - t, c1) + fmul_s(t, c2) <= s) by (nonlinear_arith)
        requires
            0 <= t <= s,
            0 <= c1 <= s,
            0 <= c2 <= s,
            (s - t) * c1 == s * (((s - t) * c1) / s) + ((s - t) * c1) % s,
            0 <= ((s - t) * c1) % s,
            t * c2 == s * ((t * c2) / s) + (t * c2) % s,
            0 <= (t * c2) % s,
            fmul_s(s - t, c1) == ((s - t) * c1) / s,
            fmul_s(t, c2) == (t * c2) / s,
    ;
}

fn background(ray: &Ray) -> (r: Vec3)
    requires
        ray_wf_s(*ray),
    ensures
        r == background_s(*ray),
        in_unit_color(r),
{
    let u = ray.direction.unit_or_zero();
    let n = u.y + SCALE;
    let t0 = if n <= 0 {
        proof {
            if n < 0 {
                lemma_div_pos_is_pos(-(n as int), 2);
            }
        }
        0
    } else {
        ((n as u64) / 2) as i64
    };
    let t = clamp_fp(t0, 0, SCALE);
    proof {
        assert(t as int == clamp_s(div_t(u.y + SCALE as int, 2), 0, SCALE as int));
        lemma_scale_v_bound(SCALE as int - t as int, Vec3 { x: SCALE, y: SCALE, z: SCALE }, 0x1_0000, 0x1_0000, 0x1_0000);
        lemma_scale_v_bound(t as int, Vec3 { x: 32768, y: 45875, z: 65536 }, 0x1_0000, 0x1_0000, 0x1_0000);
        lemma_lerp_unit(t as int, SCALE as int, 32768);
        lemma_lerp_unit(t as int, SCALE as int, 45875);
        lemma_lerp_unit(t as int, SCALE as int, 65536);
    }
    let white = Vec3::new(SCALE, SCALE, SCALE);
    let blue = Vec3::new(32768, 45875, 65536);
    white.scale(SCALE - t).add(blue.scale(t))
}

/// Evaluate the light transported back along `ray` through `world`, with at
/// most `depth` bounces. With `depth <= 0` the result is black for every ray
/// and every scene.
pub fn ray_color(world: &HittableList, ray: &Ray, depth: i32, rng: &mut Rng) -> (r: Vec3)
    requires
        list_wf_s(world.list@),
        ray_wf_s(*ray),
    ensures
        r == ray_color_s(world.list@, *ray, depth as int, old(rng).state).0,
        final(rng).state == ray_color_s(world.list@, *ray, depth as int, old(rng).state).1,
        in_unit_color(r),
        depth <= 0 ==> r == zero_v(),
    decreases depth,
{
    if depth <= 0 {
        return Vec3::zero();
    }
    match world.hit(ray, T_EPS, T_MAX) {
        Some(rec) => {
            match rec.material.scatter(ray, &rec, rng) {
                Some(pair) => {
                    let (scattered, attenuation) = pair;
                    let c = ray_color(world, &scattered, depth - 1, rng);
                    proof {
                        lemma_hadamard_unit(attenuation, c);
                    }
                    attenuation.mul(c)
                },
                None => Vec3::zero(),
            }
        },
        None => background(ray),
    }
}

} // verus!
