//! Per-pixel sampling, accumulation and finalization. A pixel is the sum of
//! independently jittered camera-ray estimates; finalization divides by the
//! sample count, applies square-root gamma, clamps, and truncates to a byte
//! per channel. Every stage is a pure function of the scene, the camera and
//! the generator seed, so a whole row is reproducible from its seed alone.

use crate::camera::{camera_wf_s, get_ray_s, ray_color_s, Camera};
use crate::fixed::{clamp_s, div_t, fsqrt_s, SCALE};
use crate::fixed::{clamp_fp, sqrt_fp};
use crate::hittable::{list_wf_s, HittableList};
use crate::rng::{next_state_s, unit_draw_s, Rng};
use crate::sphere::Sphere;
use crate::vec3::{add_v, zero_v, Vec3};
use vstd::arithmetic::div_mod::{
    lemma_div_is_ordered, lemma_div_multiples_vanish, lemma_div_pos_is_pos,
};
use vstd::prelude::*;

verus! {

/// One normalized image-plane coordinate: `(i + offset) / limit`, clamped
/// into `[0, 1]`.
pub open spec fn pixel_coord_s(i: int, off: int, limit: int) -> int {
    clamp_s(div_t(i * 65536 + off, limit), 0, 65536)
}

fn pixel_coord(i: u32, off: i64, limit: u32) -> (r: i64)
    requires
        1 <= limit <= 65535,
        i <= limit,
        0 <= off < 65536,
    ensures
        r as int == pixel_coord_s(i as int, off as int, limit as int),
        0 <= r <= SCALE,
{
    let n = (i as u64) * 65536 + (off as u64);
    let q = n / (limit as u64);
    proof {
        lemma_div_pos_is_pos(n as int, limit as int);
    }
    if q > 65536 {
        SCALE
    } else {
        q as i64
    }
}

/// The estimate one jittered sample adds to a pixel, and the generator state
/// it leaves: two uniform offsets inside the pixel footprint, a camera ray,
/// and its traced color.
pub open spec fn one_sample_s(
    world: Seq<Sphere>,
    cam: Camera,
    i: int,
    j: int,
    w: int,
    h: int,
    depth: int,
    st: u64,
) -> (Vec3, u64) {
    let uo = unit_draw_s(st);
    let st1 = next_state_s(st);
    let vo = unit_draw_s(st1);
    let st2 = next_state_s(st1);
    let sc = pixel_coord_s(i, uo, w - 1);
    let tc = pixel_coord_s(j, vo, h - 1);
    let (ray, st3) = get_ray_s(cam, sc as i64, tc as i64, st2);
    ray_color_s(world, ray, depth, st3)
}

/// The running sum of the first `k` samples of a pixel, and the state after
/// them.
pub open spec fn pixel_sum_s(
    world: Seq<Sphere>,
    cam: Camera,
    i: int,
    j: int,
    w: int,
    h: int,
    depth: int,
    k: nat,
    st: u64,
) -> (Vec3, u64)
    decreases k,
{
    if k == 0 {
        (zero_v(), st)
    } else {
        let (prev, s0) = pixel_sum_s(world, cam, i, j, w, h, depth, (k - 1) as nat, st);
        let (c, s1) = one_sample_s(world, cam, i, j, w, h, depth, s0);
        (add_v(prev, c), s1)
    }
}

/// Accumulate `samples_per_pixel` independent estimates of pixel `(i, j)`.
pub fn sample_pixel(
    cam: &Camera,
    world: &HittableList,
    i: u32,
    j: u32,
    image_width: u32,
    image_height: u32,
    samples_per_pixel: u32,
    max_depth: i32,
    rng: &mut Rng,
) -> (r: Vec3)
    requires
        camera_wf_s(*cam),
        list_wf_s(world.list@),
        2 <= image_width <= 65536,
        2 <= image_height <= 65536,
        i < image_width,
        j < image_height,
        1 <= samples_per_pixel <= 65536,
    ensures
        ({
            let (v, s) = pixel_sum_s(
                world.list@,
                *cam,
                i as int,
                j as int,
                image_width as int,
                image_height as int,
                max_depth as int,
                samples_per_pixel as nat,
                old(rng).state,
            );
            r == v && final(rng).state == s
        }),
        0 <= r.x <= (samples_per_pixel as int) * 65536,
        0 <= r.y <= (samples_per_pixel as int) * 65536,
        0 <= r.z <= (samples_per_pixel as int) * 65536,
{
    let ghost st0 = rng.state;
    let mut acc = Vec3::zero();
    let mut k: u32 = 0;
    while k < samples_per_pixel
        invariant
            camera_wf_s(*cam),
            list_wf_s(world.list@),
            2 <= image_width <= 65536,
            2 <= image_height <= 65536,
            i < image_width,
            j < image_height,
            1 <= samples_per_pixel <= 65536,
            k <= samples_per_pixel,
            ({
                let (v, s) = pixel_sum_s(
                    world.list@,
                    *cam,
                    i as int,
                    j as int,
                    image_width as int,
                    image_height as int,
                    max_depth as int,
                    k as nat,
                    st0,
                );
                acc == v && rng.state == s
            }),
            0 <= acc.x <= (k as int) * 65536,
            0 <= acc.y <= (k as int) * 65536,
            0 <= acc.z <= (k as int) * 65536,
        decreases samples_per_pixel - k,
    {
        let uo = rng.next_unit();
        let vo = rng.next_unit();
        let sc = pixel_coord(i, uo, image_width - 1);
        let tc = pixel_coord(j, vo, image_height - 1);
        let ray = cam.get_ray(sc, tc, rng);
        let c = crate::camera::ray_color(world, &ray, max_depth, rng);
        acc = acc.add(c);
        k = k + 1;
    }
    proof {
        assert(st0 == old(rng).state);
    }
    acc
}

/// The finalized byte value of one channel: average over `n` samples,
/// square-root gamma, clamp to the unit interval, scale by 255 and truncate.
pub open spec fn finalize_channel_s(c: int, n: int) -> int {
    let avg = c / n;
    let g = clamp_s(fsqrt_s(avg), 0, 65536);
    div_t(g * 255, 65536)
}

/// The finalized byte triple of an accumulated pixel color.
pub open spec fn write_pixel_s(v: Vec3, n: int) -> (int, int, int) {
    (
        finalize_channel_s(v.x as int, n),
        finalize_channel_s(v.y as int, n),
        finalize_channel_s(v.z as int, n),
    )
}

fn finalize_channel(c: i64, n: i64) -> (r: u8)
    requires
        1 <= n <= 65536,
        0 <= c,
        c as int <= (n as int) * 65536,
    ensures
        r as int == finalize_channel_s(c as int, n as int),
{
    let avg64 = (c as u64) / (n as u64);
    proof {
        lemma_div_pos_is_pos(c as int, n as int);
        lemma_div_is_ordered(c as int, (n as int) * 65536, n as int);
        lemma_div_multiples_vanish(65536, n as int);
    }
    let avg = avg64 as i64;
    let g0 = sqrt_fp(avg);
    proof {
        assert(g0 <= 65536) by (nonlinear_arith)
            requires
                (g0 as int) * (g0 as int) <= (avg as int) * (SCALE as int),
                SCALE == 65536,
                0 <= avg <= 65536,
                g0 >= 0,
        ;
    }
    let g = clamp_fp(g0, 0, SCALE);
    let out64 = (g as u64) * 255 / 65536;
    proof {
        lemma_div_pos_is_pos((g as int) * 255, 65536);
        lemma_div_is_ordered((g as int) * 255, 65536int * 255, 65536);
        lemma_div_multiples_vanish(255, 65536);
    }
    out64 as u8
}

/// Finalize an accumulated pixel color into its output byte triple.
pub fn write_pixel(color: &Vec3, samples_per_pixel: i32) -> (r: (u8, u8, u8))
    requires
        1 <= samples_per_pixel <= 65536,
        0 <= color.x,
        0 <= color.y,
        0 <= color.z,
        color.x as int <= (samples_per_pixel as int) * 65536,
        color.y as int <= (samples_per_pixel as int) * 65536,
        color.z as int <= (samples_per_pixel as int) * 65536,
    ensures
        r.0 as int == write_pixel_s(*color, samples_per_pixel as int).0,
        r.1 as int == write_pixel_s(*color, samples_per_pixel as int).1,
        r.2 as int == write_pixel_s(*color, samples_per_pixel as int).2,
{
    let n = samples_per_pixel as i64;
    (finalize_channel(color.x, n), finalize_channel(color.y, n), finalize_channel(color.z, n))
}

/// The generator state before pixel `k` of a row rendered from `seed`.
pub open spec fn row_state_s(
    world: Seq<Sphere>,
    cam: Camera,
    j: int,
    w: int,
    h: int,
    samples: int,
    depth: int,
    seed: u64,
    k: nat,
) -> u64
    decreases k,
{
    if k == 0 {
        seed
    } else {
        pixel_sum_s(
            world,
            cam,
            k - 1,
            j,
            w,
            h,
            depth,
            samples as nat,
            row_state_s(world, cam, j, w, h, samples, depth, seed, (k - 1) as nat),
        ).1
    }
}

/// The finalized byte triple of pixel `k` of a row rendered from `seed`.
pub open spec fn row_pixel_s(
    world: Seq<Sphere>,
    cam: Camera,
    j: int,
    w: int,
    h: int,
    samples: int,
    depth: int,
    seed: u64,
    k: nat,
) -> (int, int, int) {
    write_pixel_s(
        pixel_sum_s(
            world,
            cam,
            k as int,
            j,
            w,
            h,
            depth,
            samples as nat,
            row_state_s(world, cam, j, w, h, samples, depth, seed, k),
        ).0,
        samples,
    )
}

/// A rendered row agrees pixel for pixel with the row specification.
pub open spec fn row_matches_s(
    out: Seq<(u8, u8, u8)>,
    world: Seq<Sphere>,
    cam: Camera,
    j: int,
    w: int,
    h: int,
    samples: int,
    depth: int,
    seed: u64,
) -> bool {
    &&& out.len() == w
    &&& forall|k: int|
        0 <= k < w ==> {
            let t = row_pixel_s(world, cam, j, w, h, samples, depth, seed, k as nat);
            &&& (#[trigger] out[k]).0 as int == t.0
            &&& out[k].1 as int == t.1
            &&& out[k].2 as int == t.2
        }
}

/// Render one image row from its seed: the pixels in column order, each
/// finalized to output bytes. The result is a pure function of scene,
/// camera, geometry parameters and seed.
pub fn render_row(
    cam: &Camera,
    world: &HittableList,
    j: u32,
    image_width: u32,
    image_height: u32,
    samples_per_pixel: u32,
    max_depth: i32,
    seed: u64,
) -> (out: Vec<(u8, u8, u8)>)
    requires
        camera_wf_s(*cam),
        list_wf_s(world.list@),
        2 <= image_width <= 65536,
        2 <= image_height <= 65536,
        j < image_height,
        1 <= samples_per_pixel <= 65536,
    ensures
        row_matches_s(
            out@,
            world.list@,
            *cam,
            j as int,
            image_width as int,
            image_height as int,
            samples_per_pixel as int,
            max_depth as int,
            seed,
        ),
{
    let mut rng = Rng::new(seed);
    let mut out: Vec<(u8, u8, u8)> = Vec::new();
    let mut i: u32 = 0;
    while i < image_width
        invariant
            camera_wf_s(*cam),
            list_wf_s(world.list@),
            2 <= image_width <= 65536,
            2 <= image_height <= 65536,
            j < image_height,
            1 <= samples_per_pixel <= 65536,
            i <= image_width,
            out@.len() == i,
            rng.state == row_state_s(
                world.list@,
                *cam,
                j as int,
                image_width as int,
                image_height as int,
                samples_per_pixel as int,
                max_depth as int,
                seed,
                i as nat,
            ),
            forall|k: int|
                0 <= k < i ==> {
                    let t = row_pixel_s(
                        world.list@,
                        *cam,
                        j as int,
                        image_width as int,
                        image_height as int,
                        samples_per_pixel as int,
                        max_depth as int,
                        seed,
                        k as nat,
                    );
                    &&& (#[trigger] out@[k]).0 as int == t.0
                    &&& out@[k].1 as int == t.1
                    &&& out@[k].2 as int == t.2
                },
        decreases image_width - i,
    {
        let sum = sample_pixel(
            cam,
            world,
            i,
            j,
            image_width,
            image_height,
            samples_per_pixel,
            max_depth,
            &mut rng,
        );
        let px = write_pixel(&sum, samples_per_pixel as i32);
        out.push(px);
        i = i + 1;
    }
    out
}

/// Determinism: two rows rendered from the same scene, camera, geometry and
/// seed are byte-identical, whichever workers produced them.
pub proof fn lemma_render_deterministic(
    out1: Seq<(u8, u8, u8)>,
    out2: Seq<(u8, u8, u8)>,
    world: Seq<Sphere>,
    cam: Camera,
    j: int,
    w: int,
    h: int,
    samples: int,
    depth: int,
    seed: u64,
)
    requires
        row_matches_s(out1, world, cam, j, w, h, samples, depth, seed),
        row_matches_s(out2, world, cam, j, w, h, samples, depth, seed),
    ensures
        out1 == out2,
{
    assert forall|k: int| 0 <= k < w implies out1[k] == out2[k] by {
        let t = row_pixel_s(world, cam, j, w, h, samples, depth, seed, k as nat);
        assert(out1[k].0 as int == t.0 && out1[k].1 as int == t.1 && out1[k].2 as int == t.2);
        assert(out2[k].0 as int == t.0 && out2[k].1 as int == t.1 && out2[k].2 as int == t.2);
    }
    assert(out1 =~= out2);
}

/// Averaging law: when a pixel accumulates `n` identical per-sample channel
/// values `c`, finalization divides the sum `n * c` back to `c` exactly, so
/// the output byte is `sqrt(c)` clamped and scaled to `[0, 255]` — for every
/// sample count `n >= 1`.
pub proof fn lemma_average_of_identical(c: int, n: int)
    requires
        0 <= c <= 65536,
        1 <= n,
    ensures
        finalize_channel_s(n * c, n) == div_t(clamp_s(fsqrt_s(c), 0, 65536) * 255, 65536),
{
    lemma_div_multiples_vanish(c, n);
}

} // verus!
