use raytracer::camera::{ray_color, Camera};
use raytracer::fixed::{clamp_fp, div_fp, mul_fp, sqrt_fp, SCALE, T_EPS, T_MAX};
use raytracer::helpers::{random_in_unit_disk, random_in_unit_sphere, random_unit_vector};
use raytracer::hittable::{HitRecord, HittableList};
use raytracer::material::{Dielectric, Lambertian, Material, Metal};
use raytracer::ray::Ray;
use raytracer::render::{render_row, sample_pixel, write_pixel};
use raytracer::rng::Rng;
use raytracer::sphere::Sphere;
use raytracer::vec3::Vec3;

fn gray() -> Material {
    Material::Lambertian(Lambertian::new(Vec3::new(32768, 32768, 32768)))
}

fn unit_sphere_scene() -> HittableList {
    // one diffuse sphere of radius 0.5 at (0, 0, -1)
    let mut world = HittableList::new();
    world.add(Sphere::new(Vec3::new(0, 0, -65536), 32768, gray()));
    world
}

#[test]
fn fixed_point_products_are_exact() {
    // 1.5 * 0.5 == 0.75
    assert_eq!(mul_fp(98304, 32768), 49152);
    // truncation rounds toward zero on both signs
    assert_eq!(mul_fp(3, 3), 0);
    assert_eq!(mul_fp(-3, 3), 0);
    assert_eq!(mul_fp(-98304, 32768), -49152);
}

#[test]
fn fixed_point_quotients_are_exact() {
    // 1.0 / 2.0 == 0.5
    assert_eq!(div_fp(65536, 131072), 32768);
    assert_eq!(div_fp(-65536, 131072), -32768);
    assert_eq!(div_fp(65536, -131072), -32768);
}

#[test]
fn fixed_point_sqrt_is_exact() {
    // sqrt(4.0) == 2.0
    assert_eq!(sqrt_fp(4 * SCALE), 2 * SCALE);
    // sqrt(0.25) == 0.5
    assert_eq!(sqrt_fp(16384), 32768);
    assert_eq!(sqrt_fp(0), 0);
}

#[test]
fn clamp_limits_both_sides() {
    assert_eq!(clamp_fp(5, 0, 3), 3);
    assert_eq!(clamp_fp(-5, 0, 3), 0);
    assert_eq!(clamp_fp(2, 0, 3), 2);
}

#[test]
fn rng_is_reproducible_from_its_seed() {
    let mut a = Rng::new(12345);
    let mut b = Rng::new(12345);
    for _ in 0..32 {
        assert_eq!(a.next_u64(), b.next_u64());
    }
    let mut c = Rng::new(54321);
    let mut d = Rng::new(12345);
    let mut diff = false;
    for _ in 0..8 {
        if c.next_u64() != d.next_u64() {
            diff = true;
        }
    }
    assert!(diff);
}

#[test]
fn rng_draws_stay_in_range() {
    let mut rng = Rng::new(99);
    for _ in 0..256 {
        let u = rng.next_unit();
        assert!(0 <= u && u < SCALE);
    }
    for _ in 0..256 {
        let s = rng.next_sym();
        assert!(-SCALE <= s && s <= SCALE);
    }
}

#[test]
fn sampled_points_lie_in_their_domains() {
    let mut rng = Rng::new(7);
    for _ in 0..32 {
        let p = random_in_unit_sphere(&mut rng);
        let d = p.length_squared();
        assert!(SCALE / 4 <= d && d < SCALE);
        let q = random_in_unit_disk(&mut rng);
        assert_eq!(q.z, 0);
        assert!(q.length_squared() < SCALE);
        let u = random_unit_vector(&mut rng);
        // near-unit: squared length within 64 raw steps of one
        let ls = u.length_squared();
        assert!(SCALE - 64 <= ls && ls <= SCALE + 64);
    }
}

#[test]
fn ray_evaluation_is_exact() {
    let ray = Ray::new(Vec3::new(65536, 0, 0), Vec3::new(0, 65536, 0));
    // half a unit along the direction
    assert_eq!(ray.at(32768), Vec3::new(65536, 32768, 0));
    assert_eq!(ray.at(0), Vec3::new(65536, 0, 0));
}

#[test]
fn refraction_with_matched_media_goes_straight_through() {
    // refraction ratio 1: the direction passes unchanged
    let ray = Ray::new(Vec3::new(0, 0, 0), Vec3::new(0, 0, -65536));
    let rec = HitRecord::new(
        Vec3::new(0, 0, -32768),
        Vec3::new(0, 0, 65536),
        32768,
        &ray,
        gray(),
    );
    let refracted = ray.refracted(&rec, 65536);
    assert_eq!(refracted.direction, Vec3::new(0, 0, -65536));
    assert_eq!(refracted.origin, rec.p);
    let reflected = ray.reflected(&rec);
    assert_eq!(reflected.direction, Vec3::new(0, 0, 65536));
}

#[test]
fn sphere_hit_reports_the_near_root() {
    // ray straight down -z from the origin against the unit-sphere scene:
    // the near intersection is at t = 0.5 on the front face
    let s = Sphere::new(Vec3::new(0, 0, -65536), 32768, gray());
    let ray = Ray::new(Vec3::new(0, 0, 0), Vec3::new(0, 0, -65536));
    let rec = s.hit(&ray, T_EPS, T_MAX).expect("must hit");
    assert_eq!(rec.t, 32768);
    assert_eq!(rec.p, Vec3::new(0, 0, -32768));
    assert_eq!(rec.normal, Vec3::new(0, 0, 65536));
    assert!(rec.front_face);
    // the ray runs through the center, so both roots are real; excluding the
    // near one exposes the far one, and the two are symmetric about the
    // closest-approach parameter (the center distance, 1.0)
    let far = s.hit(&ray, 49152, T_MAX).expect("far root");
    assert_eq!(far.t, 98304);
    assert_eq!((rec.t + far.t) / 2, 65536);
    assert!(!far.front_face);
}

#[test]
fn hits_near_the_world_edge_are_kept() {
    // a sphere whose surface reaches 2000 units, fully inside the world
    // bound; a ray from inside it exits at the far surface point, and the
    // exit hit is reported, not dropped
    let s = Sphere::new(Vec3::new(1900 * 65536, 0, 0), 100 * 65536, gray());
    let ray = Ray::new(Vec3::new(1890 * 65536, 0, 0), Vec3::new(65536, 0, 0));
    let rec = s.hit(&ray, T_EPS, T_MAX).expect("exit hit must be kept");
    assert_eq!(rec.t, 110 * 65536);
    assert_eq!(rec.p, Vec3::new(2000 * 65536, 0, 0));
    assert!(!rec.front_face);
    assert_eq!(rec.normal, Vec3::new(-65536, 0, 0));
}

#[test]
fn distant_hits_lie_within_the_search_horizon() {
    // nearly four thousand units of flight for a unit-length direction stay
    // inside the ray-parameter horizon
    let s = Sphere::new(Vec3::new(0, 0, -1990 * 65536), 50 * 65536, gray());
    let ray = Ray::new(Vec3::new(0, 0, 2000 * 65536), Vec3::new(0, 0, -65536));
    let rec = s.hit(&ray, T_EPS, T_MAX).expect("distant hit");
    assert_eq!(rec.t, 3940 * 65536);
    assert_eq!(rec.p, Vec3::new(0, 0, -1940 * 65536));
    assert!(rec.front_face);
}

#[test]
fn sphere_miss_reports_none() {
    let s = Sphere::new(Vec3::new(0, 0, -65536), 32768, gray());
    let ray = Ray::new(Vec3::new(0, 0, 0), Vec3::new(0, 0, 65536));
    assert!(s.hit(&ray, T_EPS, T_MAX).is_none());
}

#[test]
fn front_face_correction_opposes_the_ray() {
    // from inside the sphere the outward normal is flipped
    let s = Sphere::new(Vec3::new(0, 0, 0), 65536, gray());
    let ray = Ray::new(Vec3::new(0, 0, 0), Vec3::new(0, 0, -65536));
    let rec = s.hit(&ray, T_EPS, T_MAX).expect("must hit");
    assert!(!rec.front_face);
    // dot(direction, normal) <= 0 must hold after construction
    assert!(ray.direction.dot(rec.normal) <= 0);
    let rec2 = HitRecord::new(
        Vec3::new(0, 0, -32768),
        Vec3::new(0, 0, -65536),
        32768,
        &ray,
        gray(),
    );
    assert!(ray.direction.dot(rec2.normal) <= 0);
}

#[test]
fn negative_radius_keeps_t_and_flips_the_face() {
    let outer = Sphere::new(Vec3::new(0, 0, -65536), 32768, gray());
    let inner = Sphere::new(Vec3::new(0, 0, -65536), -32768, gray());
    let ray = Ray::new(Vec3::new(0, 0, 0), Vec3::new(0, 0, -65536));
    let r1 = outer.hit(&ray, T_EPS, T_MAX).expect("must hit");
    let r2 = inner.hit(&ray, T_EPS, T_MAX).expect("must hit");
    assert_eq!(r1.t, r2.t);
    assert_eq!(r1.p, r2.p);
    // the outward normal is opposite, so the face flag flips while the
    // corrected normal agrees
    assert_eq!(r1.front_face, !r2.front_face);
    assert_eq!(r1.normal, r2.normal);
}

#[test]
fn scene_scan_keeps_the_nearest_hit() {
    let near_albedo = Vec3::new(65536, 0, 0);
    let far_albedo = Vec3::new(0, 65536, 0);
    let mut world = HittableList::new();
    world.add(Sphere::new(
        Vec3::new(0, 0, -4 * 65536),
        32768,
        Material::Lambertian(Lambertian::new(far_albedo)),
    ));
    world.add(Sphere::new(
        Vec3::new(0, 0, -65536),
        32768,
        Material::Lambertian(Lambertian::new(near_albedo)),
    ));
    let ray = Ray::new(Vec3::new(0, 0, 0), Vec3::new(0, 0, -65536));
    let rec = world.hit(&ray, T_EPS, T_MAX).expect("must hit");
    assert_eq!(rec.t, 32768);
    match rec.material {
        Material::Lambertian(l) => assert_eq!(l.albedo, near_albedo),
        _ => panic!("wrong material"),
    }
}

#[test]
fn scene_scan_breaks_ties_by_order() {
    let first = Vec3::new(65536, 0, 0);
    let second = Vec3::new(0, 65536, 0);
    let mut world = HittableList::new();
    world.add(Sphere::new(
        Vec3::new(0, 0, -65536),
        32768,
        Material::Lambertian(Lambertian::new(first)),
    ));
    world.add(Sphere::new(
        Vec3::new(0, 0, -65536),
        32768,
        Material::Lambertian(Lambertian::new(second)),
    ));
    let ray = Ray::new(Vec3::new(0, 0, 0), Vec3::new(0, 0, -65536));
    let rec = world.hit(&ray, T_EPS, T_MAX).expect("must hit");
    match rec.material {
        Material::Lambertian(l) => assert_eq!(l.albedo, first),
        _ => panic!("wrong material"),
    }
}

#[test]
fn ray_color_at_zero_depth_is_black() {
    let world = unit_sphere_scene();
    let mut rng = Rng::new(1);
    let ray = Ray::new(Vec3::new(0, 0, 0), Vec3::new(0, 0, -65536));
    assert_eq!(ray_color(&world, &ray, 0, &mut rng), Vec3::new(0, 0, 0));
    assert_eq!(ray_color(&world, &ray, -3, &mut rng), Vec3::new(0, 0, 0));
}

#[test]
fn ray_color_miss_is_the_sky_gradient() {
    let world = HittableList::new();
    let mut rng = Rng::new(1);
    // straight up: the top of the gradient, light blue
    let up = Ray::new(Vec3::new(0, 0, 0), Vec3::new(0, 65536, 0));
    assert_eq!(ray_color(&world, &up, 8, &mut rng), Vec3::new(32768, 45875, 65536));
    // straight down: the bottom of the gradient, white
    let down = Ray::new(Vec3::new(0, 0, 0), Vec3::new(0, -65536, 0));
    assert_eq!(ray_color(&world, &down, 8, &mut rng), Vec3::new(65536, 65536, 65536));
}

#[test]
fn lambertian_always_scatters_with_its_albedo() {
    let albedo = Vec3::new(6553, 13107, 32768);
    let mat = Material::Lambertian(Lambertian::new(albedo));
    let ray = Ray::new(Vec3::new(0, 0, 0), Vec3::new(0, 0, -65536));
    let rec = HitRecord::new(Vec3::new(0, 0, -32768), Vec3::new(0, 0, 65536), 32768, &ray, mat);
    let mut rng = Rng::new(3);
    for _ in 0..16 {
        let (scattered, attenuation) = mat.scatter(&ray, &rec, &mut rng).expect("never absorbs");
        assert_eq!(attenuation, albedo);
        assert_eq!(scattered.origin, rec.p);
    }
}

#[test]
fn metal_scatter_absorbs_exactly_below_the_surface() {
    let mat = Material::Metal(Metal::new(Vec3::new(65536, 65536, 65536), 0));
    let mut rng = Rng::new(5);
    // reflection off the front face leaves the surface: scattered
    let ray = Ray::new(Vec3::new(0, 0, 0), Vec3::new(0, 0, -65536));
    let rec = HitRecord::new(Vec3::new(0, 0, -32768), Vec3::new(0, 0, 65536), 32768, &ray, mat);
    let (scattered, _) = mat.scatter(&ray, &rec, &mut rng).expect("reflection leaves surface");
    assert_eq!(scattered.direction, Vec3::new(0, 0, 65536));
    // a grazing ray whose reflection stays in the surface plane: absorbed
    let graze = Ray::new(Vec3::new(0, 0, 0), Vec3::new(65536, 0, 0));
    let rec2 = HitRecord {
        p: Vec3::new(0, 0, -32768),
        normal: Vec3::new(0, 0, 65536),
        t: 32768,
        front_face: true,
        material: mat,
    };
    assert!(mat.scatter(&graze, &rec2, &mut rng).is_none());
}

#[test]
fn dielectric_scatter_never_absorbs() {
    let mat = Material::Dielectric(Dielectric::new(98304));
    let mut rng = Rng::new(11);
    let ray = Ray::new(Vec3::new(0, 0, 0), Vec3::new(0, 0, -65536));
    for front in [true, false] {
        let rec = HitRecord {
            p: Vec3::new(0, 0, -32768),
            normal: Vec3::new(0, 0, 65536),
            t: 32768,
            front_face: front,
            material: mat,
        };
        for _ in 0..16 {
            let (scattered, attenuation) = mat.scatter(&ray, &rec, &mut rng).expect("never absorbs");
            // a clear dielectric attenuates nothing
            assert_eq!(attenuation, Vec3::new(65536, 65536, 65536));
            assert_eq!(scattered.origin, rec.p);
        }
    }
}

#[test]
fn write_pixel_averages_then_applies_gamma() {
    // four identical samples of 0.25 per channel: average 0.25,
    // sqrt gives 0.5, scaled and truncated to 127
    let acc = Vec3::new(4 * 16384, 4 * 16384, 4 * 16384);
    assert_eq!(write_pixel(&acc, 4), (127, 127, 127));
    // full white stays full white
    let white = Vec3::new(3 * 65536, 3 * 65536, 3 * 65536);
    assert_eq!(write_pixel(&white, 3), (255, 255, 255));
    // black stays black
    assert_eq!(write_pixel(&Vec3::new(0, 0, 0), 16), (0, 0, 0));
}

fn p9_camera() -> Camera {
    // at the origin looking down -z, 90 degree field of view, aspect 16:9,
    // no defocus, focus plane at distance one
    Camera::new(
        Vec3::new(0, 0, 0),
        Vec3::new(0, 0, -65536),
        Vec3::new(0, 65536, 0),
        65536,
        0,
        65536,
        116508,
    )
}

#[test]
fn camera_ray_starts_at_the_origin_without_aperture() {
    let cam = p9_camera();
    let mut rng = Rng::new(2);
    let r = cam.get_ray(32768, 32768, &mut rng);
    assert_eq!(r.origin, Vec3::new(0, 0, 0));
    // the center of the image plane lies straight ahead
    assert!(r.direction.z < 0);
}

#[test]
fn renders_are_deterministic_for_equal_seeds() {
    let world = unit_sphere_scene();
    let cam = p9_camera();
    let row_a = render_row(&cam, &world, 9, 32, 18, 4, 8, 0xDEAD_BEEF);
    let row_b = render_row(&cam, &world, 9, 32, 18, 4, 8, 0xDEAD_BEEF);
    assert_eq!(row_a, row_b);
    assert_eq!(row_a.len(), 32);
    let mut r1 = Rng::new(77);
    let mut r2 = Rng::new(77);
    let s1 = sample_pixel(&cam, &world, 16, 9, 32, 18, 4, 8, &mut r1);
    let s2 = sample_pixel(&cam, &world, 16, 9, 32, 18, 4, 8, &mut r2);
    assert_eq!(s1, s2);
    assert_eq!(r1, r2);
}

#[test]
fn end_to_end_center_pixel_is_between_black_and_sky() {
    // a single diffuse sphere dead ahead; the center pixel's ray strikes the
    // sphere apex, bounces once, and picks up attenuated sky light: strictly
    // darker than the sky, strictly lighter than black, and reproducible
    let world = unit_sphere_scene();
    let empty = HittableList::new();
    let cam = p9_camera();
    let width: u32 = 512;
    let height: u32 = 288;
    let (i, j) = (width / 2, height / 2);
    let seed: u64 = 424242;
    let mut rng = Rng::new(seed);
    let sum = sample_pixel(&cam, &world, i, j, width, height, 1, 2, &mut rng);
    let px = write_pixel(&sum, 1);
    let mut sky_rng = Rng::new(seed);
    let sky_sum = sample_pixel(&cam, &empty, i, j, width, height, 1, 2, &mut sky_rng);
    let sky = write_pixel(&sky_sum, 1);
    assert!(px.0 > 0 && px.1 > 0 && px.2 > 0);
    assert!(px.0 < sky.0 && px.1 < sky.1 && px.2 < sky.2);
    // byte-identical under the same seed
    let mut rng2 = Rng::new(seed);
    let sum2 = sample_pixel(&cam, &world, i, j, width, height, 1, 2, &mut rng2);
    assert_eq!(write_pixel(&sum2, 1), px);
}
