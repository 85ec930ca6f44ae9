use rand_core::{Rng, SeedableRng};
use rand_xoshiro::Xoshiro256Plus;
use raytracer::buffer::Buffer;
use raytracer::camera::{Camera, CameraConfig};
use raytracer::fx::FX_ONE;
use raytracer::hittable::{HitRecord, HittableList, Sphere};
use raytracer::materials::{
    Dielectric, DielectricConfig, Lambertian, LambertianConfig, Material, Metal, MetalConfig,
};
use raytracer::math::{Interval, Ray, Vector3};

fn gray() -> Material {
    Material::Lambertian(Lambertian::new(LambertianConfig {
        albedo: Vector3::new(FX_ONE / 2, FX_ONE / 2, FX_ONE / 2),
    }))
}

#[test]
fn sphere_hit_from_outside() {
    let sphere = Sphere::new(Vector3::new(0, 0, 0), FX_ONE, gray());
    let ray = Ray::new(Vector3::new(0, 0, 5 * FX_ONE), Vector3::new(0, 0, -FX_ONE));
    let hit = sphere
        .hit(&ray, &Interval::new(66, i64::MAX))
        .expect("the ray points at the sphere");
    assert_eq!(hit.t(), 4 * FX_ONE);
    assert_eq!(*hit.p(), Vector3::new(0, 0, FX_ONE));
    assert_eq!(*hit.normal(), Vector3::new(0, 0, FX_ONE));
    assert!(hit.front_face());
}

#[test]
fn sphere_hit_from_inside_flips_normal() {
    let sphere = Sphere::new(Vector3::new(0, 0, 0), FX_ONE, gray());
    let ray = Ray::new(Vector3::new(0, 0, 0), Vector3::new(0, 0, -FX_ONE));
    let hit = sphere
        .hit(&ray, &Interval::new(66, i64::MAX))
        .expect("a ray from the center always leaves through the surface");
    assert_eq!(hit.t(), FX_ONE);
    assert_eq!(*hit.p(), Vector3::new(0, 0, -FX_ONE));
    // The outward radius direction is -z; the stored normal opposes it.
    assert!(!hit.front_face());
    assert_eq!(*hit.normal(), Vector3::new(0, 0, FX_ONE));
}

#[test]
fn sphere_miss_returns_none() {
    let sphere = Sphere::new(Vector3::new(0, 0, 0), FX_ONE, gray());
    let ray = Ray::new(Vector3::new(0, 0, 5 * FX_ONE), Vector3::new(0, 0, FX_ONE));
    assert!(sphere.hit(&ray, &Interval::new(66, i64::MAX)).is_none());
}

#[test]
fn scene_returns_nearest_hit_in_either_order() {
    let near = Sphere::new(Vector3::new(0, 0, 2 * FX_ONE), FX_ONE, gray());
    let far = Sphere::new(Vector3::new(0, 0, 0), FX_ONE, gray());
    let ray = Ray::new(Vector3::new(0, 0, 5 * FX_ONE), Vector3::new(0, 0, -FX_ONE));
    let iv = Interval::new(66, i64::MAX);

    let mut world_a = HittableList::new();
    world_a.add(far);
    world_a.add(near);
    let mut world_b = HittableList::new();
    world_b.add(near);
    world_b.add(far);

    let hit_a = world_a.hit(&ray, &iv).expect("both spheres lie on the ray");
    let hit_b = world_b.hit(&ray, &iv).expect("both spheres lie on the ray");
    assert_eq!(hit_a.t(), 2 * FX_ONE);
    assert_eq!(hit_b.t(), 2 * FX_ONE);
    assert_eq!(*hit_a.p(), *hit_b.p());

    world_a.clear();
    assert!(world_a.hit(&ray, &iv).is_none());
}

fn head_on_hit(mat: Material) -> (Ray, HitRecord) {
    let ray = Ray::new(Vector3::new(0, 0, 5 * FX_ONE), Vector3::new(0, 0, -FX_ONE));
    let hit = HitRecord::new(
        Vector3::new(0, 0, FX_ONE),
        Vector3::new(0, 0, FX_ONE),
        4 * FX_ONE,
        true,
        mat,
    );
    (ray, hit)
}

#[test]
fn lambertian_never_absorbs_and_keeps_albedo() {
    let albedo = Vector3::new(29491, 39321, 45875);
    let mat = Lambertian::new(LambertianConfig { albedo });
    let mut rng = Xoshiro256Plus::seed_from_u64(9);
    let (ray, hit) = head_on_hit(Material::Lambertian(mat));
    for _ in 0..64 {
        let (attenuation, scattered) = mat
            .scatter(&ray, &hit, &mut rng)
            .expect("diffuse scattering never absorbs");
        assert_eq!(attenuation, albedo);
        assert_eq!(scattered.orig, *hit.p());
    }
}

#[test]
fn metal_with_zero_fuzz_is_exact_mirror() {
    let albedo = Vector3::new(45875, 45875, 32768);
    let mat = Metal::new(MetalConfig { albedo, fuzz: 0 });
    let mut rng = Xoshiro256Plus::seed_from_u64(9);
    // Incoming at 45 degrees in the x-z plane against the +z normal.
    let ray = Ray::new(
        Vector3::new(-FX_ONE, 0, FX_ONE),
        Vector3::new(FX_ONE, 0, -FX_ONE),
    );
    let hit = HitRecord::new(
        Vector3::new(0, 0, 0),
        Vector3::new(0, 0, FX_ONE),
        FX_ONE,
        true,
        Material::Metal(mat),
    );
    let (attenuation, scattered) = mat
        .scatter(&ray, &hit, &mut rng)
        .expect("the mirror direction leaves the surface");
    assert_eq!(attenuation, albedo);
    // reflect((1,0,-1), z) = (1,0,1), normalized; no randomness enters.
    let expected = Vector3::new(FX_ONE, 0, FX_ONE).normalize();
    assert_eq!(scattered.dir, expected);

    // A ray leaving along the normal reflects into the surface: absorbed.
    let grazing = Ray::new(Vector3::new(0, 0, -FX_ONE), Vector3::new(0, 0, FX_ONE));
    assert!(mat.scatter(&grazing, &hit, &mut rng).is_none());
}

#[test]
fn dielectric_at_normal_incidence_is_reproducible() {
    let mat = Dielectric::new(DielectricConfig {
        refraction_index: 98304,
    });
    let (ray, hit) = head_on_hit(Material::Dielectric(mat));

    // The scatter consumes exactly one uniform draw; inspect it up front.
    let mut probe = Xoshiro256Plus::seed_from_u64(9);
    let q = (probe.next_u64() >> 48) as i64;
    let schlick_at_normal = 2621;

    let mut rng = Xoshiro256Plus::seed_from_u64(9);
    let (attenuation, scattered) = mat
        .scatter(&ray, &hit, &mut rng)
        .expect("dielectrics never absorb");
    assert_eq!(attenuation, Vector3::new(FX_ONE, FX_ONE, FX_ONE));
    assert_eq!(scattered.orig, *hit.p());
    let expected = if schlick_at_normal > q {
        // Reflected straight back.
        Vector3::new(0, 0, FX_ONE)
    } else {
        // Refracted straight through.
        Vector3::new(0, 0, -FX_ONE)
    };
    assert_eq!(scattered.dir, expected);

    // Same seed, same outcome.
    let mut rng2 = Xoshiro256Plus::seed_from_u64(9);
    let again = mat.scatter(&ray, &hit, &mut rng2).unwrap();
    assert_eq!(again.0, attenuation);
    assert_eq!(again.1.orig, scattered.orig);
    assert_eq!(again.1.dir, scattered.dir);
}

fn small_config() -> CameraConfig {
    CameraConfig {
        image_width: 8,
        image_height: 4,
        aspect_ratio: 2 * FX_ONE,
        samples_per_pixel: 1,
        max_ray_depth: 4,
        light_intensity: 62259,
        sky_color: Vector3::new(FX_ONE / 2, 45875, FX_ONE),
        fov: 20 * FX_ONE,
        look_from: Vector3::new(13 * FX_ONE, 2 * FX_ONE, 3 * FX_ONE),
        look_at: Vector3::new(0, 0, 0),
        defocus_angle: 39321,
        focus_dist: 10 * FX_ONE,
    }
}

fn small_world() -> HittableList {
    let mut world = HittableList::new();
    world.add(Sphere::new(
        Vector3::new(0, -1000 * FX_ONE, 0),
        1000 * FX_ONE,
        gray(),
    ));
    world.add(Sphere::new(
        Vector3::new(0, FX_ONE, 0),
        FX_ONE,
        Material::Dielectric(Dielectric::new(DielectricConfig {
            refraction_index: 98304,
        })),
    ));
    world.add(Sphere::new(
        Vector3::new(4 * FX_ONE, FX_ONE, 0),
        FX_ONE,
        Material::Metal(Metal::new(MetalConfig {
            albedo: Vector3::new(45875, 45875, 32768),
            fuzz: 0,
        })),
    ));
    world
}

#[test]
fn ray_color_returns_black_below_zero_depth() {
    let cam = Camera::new(&small_config());
    let world = small_world();
    let mut rng = Xoshiro256Plus::seed_from_u64(9);
    let ray = Ray::new(Vector3::new(0, 0, 5 * FX_ONE), Vector3::new(0, 0, -FX_ONE));
    let c = cam.ray_color(&ray, -1, &world, &mut rng);
    assert_eq!(c, Vector3::new(0, 0, 0));
}

#[test]
fn ray_color_miss_is_exact_sky_gradient() {
    let cam = Camera::new(&small_config());
    let empty = HittableList::new();
    let mut rng = Xoshiro256Plus::seed_from_u64(9);
    // Straight up: the gradient weight is one, giving the sky color.
    let up = Ray::new(Vector3::new(0, 0, 0), Vector3::new(0, FX_ONE, 0));
    assert_eq!(
        cam.ray_color(&up, 4, &empty, &mut rng),
        cam.sky_color
    );
    // Straight down: the gradient weight is zero, giving white.
    let down = Ray::new(Vector3::new(0, 0, 0), Vector3::new(0, -FX_ONE, 0));
    assert_eq!(
        cam.ray_color(&down, 4, &empty, &mut rng),
        Vector3::new(FX_ONE, FX_ONE, FX_ONE)
    );
}

#[test]
fn camera_uses_center_when_defocus_disabled() {
    let mut config = small_config();
    config.defocus_angle = 0;
    let cam = Camera::new(&config);
    assert_eq!(cam.center, config.look_from);
    let mut rng = Xoshiro256Plus::seed_from_u64(9);
    for _ in 0..8 {
        let ray = cam.get_ray(3, 1, &mut rng);
        assert_eq!(ray.orig, cam.center);
    }
}

#[test]
fn render_is_deterministic_for_a_fixed_seed() {
    let cam = Camera::new(&small_config());
    let world = small_world();

    let mut bf1 = Buffer::new(8, 4);
    let mut rng1 = Xoshiro256Plus::seed_from_u64(9);
    cam.render(&mut bf1, &world, &mut rng1);

    let mut bf2 = Buffer::new(8, 4);
    let mut rng2 = Xoshiro256Plus::seed_from_u64(9);
    cam.render(&mut bf2, &world, &mut rng2);

    assert_eq!(bf1.buffer(), bf2.buffer());
    assert_eq!(bf1.buffer().len(), 32);
    for &px in bf1.buffer().iter() {
        assert_eq!(px & 0xff00_0000, 0xff00_0000, "pixel {px:#010x} is opaque");
    }

    // A different seed disturbs at least the sampling stream.
    let mut bf3 = Buffer::new(8, 4);
    let mut rng3 = Xoshiro256Plus::seed_from_u64(10);
    cam.render(&mut bf3, &world, &mut rng3);
    assert_eq!(bf3.buffer().len(), 32);
}

#[test]
fn buffer_new_clear_set_and_rect() {
    let mut bf = Buffer::new(4, 3);
    assert_eq!(bf.width(), 4);
    assert_eq!(bf.height(), 3);
    assert_eq!(bf.buffer().len(), 12);
    assert!(bf.buffer().iter().all(|&p| p == 0x00_ffffff));

    bf.clear(0xff112233);
    assert!(bf.buffer().iter().all(|&p| p == 0xff112233));

    bf.set(2, 1, 0xffabcdef);
    assert_eq!(bf.buffer()[1 * 4 + 2], 0xffabcdef);

    bf.set_color(0, 0, &Vector3::new(FX_ONE, FX_ONE, FX_ONE));
    assert_eq!(bf.buffer()[0], 0xffffffff);

    bf.clear(0);
    bf.draw_rect(1, 1, 2, 1, 0xff00ff00);
    for y in 0..3usize {
        for x in 0..4usize {
            let expected = if y == 1 && (x == 1 || x == 2) {
                0xff00ff00
            } else {
                0
            };
            assert_eq!(bf.buffer()[y * 4 + x], expected, "at ({x},{y})");
        }
    }

    // A rectangle reaching past the edge is clipped.
    bf.clear(0);
    bf.draw_rect(2, 0, 10, 10, 0xffffffff);
    for y in 0..3usize {
        for x in 0..4usize {
            let expected = if x >= 2 { 0xffffffff } else { 0 };
            assert_eq!(bf.buffer()[y * 4 + x], expected, "at ({x},{y})");
        }
    }
}
