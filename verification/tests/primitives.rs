use rand_core::SeedableRng;
use rand_xoshiro::Xoshiro256Plus;
use raytracer::color::vec3_to_color;
use raytracer::fx::{fx_div, fx_mul, fx_sqrt, FX_MAX, FX_ONE};
use raytracer::math::{
    degrees_to_radians, rand, rand_rng, rand_hemnisphere_vec3, rand_unit_vec3, vec3_near_zero,
    vec3_rand_in_unit_disk, vec3_reflect, vec3_refract_with_cos, Interval, Ray, Vector3,
    Vector3Ext, FX_PI, FX_STRAIGHT,
};

#[test]
fn fx_arithmetic_exact_cases() {
    assert_eq!(fx_mul(FX_ONE, FX_ONE), FX_ONE);
    assert_eq!(fx_mul(3 * FX_ONE, 2 * FX_ONE), 6 * FX_ONE);
    assert_eq!(fx_mul(-3 * FX_ONE, 2 * FX_ONE), -6 * FX_ONE);
    assert_eq!(fx_div(FX_ONE, 2 * FX_ONE), FX_ONE / 2);
    assert_eq!(fx_div(-FX_ONE, 2 * FX_ONE), -FX_ONE / 2);
    assert_eq!(fx_div(FX_ONE, 0), FX_MAX);
    assert_eq!(fx_div(-FX_ONE, 0), -FX_MAX);
    assert_eq!(fx_div(0, 0), 0);
    assert_eq!(fx_sqrt(FX_ONE), FX_ONE);
    assert_eq!(fx_sqrt(4 * FX_ONE), 2 * FX_ONE);
    assert_eq!(fx_sqrt(-FX_ONE), 0);
}

#[test]
fn reflect_about_axis_normal_is_exact_mirror() {
    let v = Vector3::new(FX_ONE, 2 * FX_ONE, 3 * FX_ONE);
    let n = Vector3::new(0, 0, FX_ONE);
    let r = vec3_reflect(&v, &n);
    assert_eq!(r, Vector3::new(FX_ONE, 2 * FX_ONE, -3 * FX_ONE));
    // v - reflect(v, n) is parallel to n: its x and y components vanish.
    let diff = v.sub(&r);
    assert_eq!(diff, Vector3::new(0, 0, 6 * FX_ONE));
    // The length is preserved exactly for an axis normal.
    assert_eq!(r.length_squared(), v.length_squared());
    assert_eq!(r.length(), v.length());
}

#[test]
fn refract_at_normal_incidence_goes_straight_through() {
    let v = Vector3::new(0, 0, -FX_ONE);
    let n = Vector3::new(0, 0, FX_ONE);
    let ri = fx_div(FX_ONE, 98304);
    let r = vec3_refract_with_cos(&v, &n, ri, FX_ONE);
    assert_eq!(r, Vector3::new(0, 0, -FX_ONE));
}

#[test]
fn vector_algebra_exact_cases() {
    let a = Vector3::new(FX_ONE, 2 * FX_ONE, 3 * FX_ONE);
    let b = Vector3::new(-FX_ONE, FX_ONE, 2 * FX_ONE);
    assert_eq!(a.add(&b), Vector3::new(0, 3 * FX_ONE, 5 * FX_ONE));
    assert_eq!(a.sub(&b), Vector3::new(2 * FX_ONE, FX_ONE, FX_ONE));
    assert_eq!(a.neg(), Vector3::new(-FX_ONE, -2 * FX_ONE, -3 * FX_ONE));
    assert_eq!(a.scale(2 * FX_ONE), Vector3::new(2 * FX_ONE, 4 * FX_ONE, 6 * FX_ONE));
    assert_eq!(a.dot(&b), 7 * FX_ONE);
    assert_eq!(
        a.cross(&b),
        Vector3::new(FX_ONE, -5 * FX_ONE, 3 * FX_ONE)
    );
    assert_eq!(a.length_squared(), 14 * FX_ONE);
    let v = Vector3::new(3 * FX_ONE, 4 * FX_ONE, 0);
    assert_eq!(v.length(), 5 * FX_ONE);
    assert_eq!(v.normalize(), Vector3::new(39321, 52428, 0));
    assert_eq!(fx_sqrt(2 * FX_ONE), 92681);
    assert_eq!(a.mul_each(&b), Vector3::new(-FX_ONE, 2 * FX_ONE, 6 * FX_ONE));
    assert_eq!(a.divs(2 * FX_ONE), Vector3::new(FX_ONE / 2, FX_ONE, 3 * FX_ONE / 2));
}

#[test]
fn near_zero_is_exact_zero() {
    assert!(vec3_near_zero(Vector3::new(0, 0, 0)));
    assert!(!vec3_near_zero(Vector3::new(1, 0, 0)));
    assert!(Vector3::new(0, 0, 0).near_zero());
    assert!(!Vector3::new(0, -1, 0).near_zero());
}

#[test]
fn degrees_to_radians_straight_angle_is_pi() {
    assert_eq!(degrees_to_radians(FX_STRAIGHT), FX_PI);
    assert_eq!(degrees_to_radians(0), 0);
}

#[test]
fn interval_contains_surrounds_clamp() {
    let iv = Interval::new(0, 10);
    assert!(iv.contains(0));
    assert!(iv.contains(10));
    assert!(!iv.contains(11));
    assert!(!iv.surrounds(0));
    assert!(iv.surrounds(5));
    assert!(!iv.surrounds(10));
    assert_eq!(iv.clamp(-3), 0);
    assert_eq!(iv.clamp(12), 10);
    assert_eq!(iv.clamp(7), 7);
    assert_eq!(iv.min(), 0);
    assert_eq!(iv.max(), 10);
    let mut iv2 = Interval::default();
    assert_eq!(iv2.min(), -FX_MAX);
    assert_eq!(iv2.max(), FX_MAX);
    iv2.set_max(42);
    assert_eq!(iv2.max(), 42);
    assert_eq!(iv2.min(), -FX_MAX);
}

#[test]
fn ray_at_walks_along_direction() {
    let r = Ray::new(Vector3::new(0, 0, 5 * FX_ONE), Vector3::new(0, 0, -FX_ONE));
    assert_eq!(r.at(4 * FX_ONE), Vector3::new(0, 0, FX_ONE));
    assert_eq!(*r.orig(), Vector3::new(0, 0, 5 * FX_ONE));
    assert_eq!(*r.dir(), Vector3::new(0, 0, -FX_ONE));
}

#[test]
fn rand_draws_stay_in_range_and_reproduce() {
    let mut rng = Xoshiro256Plus::seed_from_u64(9);
    for _ in 0..100 {
        let u = rand(&mut rng);
        assert!((0..FX_ONE).contains(&u));
        let v = rand_rng(&mut rng, -FX_ONE, FX_ONE);
        assert!((-FX_ONE..FX_ONE).contains(&v));
    }
    let mut a = Xoshiro256Plus::seed_from_u64(123);
    let mut b = Xoshiro256Plus::seed_from_u64(123);
    for _ in 0..32 {
        assert_eq!(rand(&mut a), rand(&mut b));
    }
}

#[test]
fn rand_unit_vec3_is_normalized_sample() {
    let mut rng = Xoshiro256Plus::seed_from_u64(9);
    for _ in 0..32 {
        let u = rand_unit_vec3(&mut rng);
        // The squared length of a normalized sample stays near one.
        let ls = u.length_squared();
        assert!(ls > FX_ONE / 2 && ls < 2 * FX_ONE, "length_squared {ls}");
    }
}

#[test]
fn hemisphere_and_disk_samples_stay_in_bounds() {
    let mut rng = Xoshiro256Plus::seed_from_u64(9);
    let normal = Vector3::new(0, FX_ONE, 0);
    for _ in 0..32 {
        let u = rand_hemnisphere_vec3(&mut rng, &normal);
        assert!(u.dot(&normal) >= 0);
        let p = vec3_rand_in_unit_disk(&mut rng);
        assert_eq!(p.z, 0);
        assert!(p.length_squared() < FX_ONE);
    }
}

#[test]
fn gamma_and_quantization_of_colors() {
    // Linear white maps to opaque white, linear black to opaque black.
    assert_eq!(vec3_to_color(&Vector3::new(FX_ONE, FX_ONE, FX_ONE)), 0xffffffff);
    assert_eq!(vec3_to_color(&Vector3::new(0, 0, 0)), 0xff000000);
    // Negative channels clamp to zero before the square-root gamma step.
    assert_eq!(vec3_to_color(&Vector3::new(-FX_ONE, -5 * FX_ONE, 0)), 0xff000000);
    // A quarter becomes one half after gamma, then 127 after quantization.
    assert_eq!(
        vec3_to_color(&Vector3::new(FX_ONE / 4, FX_ONE / 4, FX_ONE / 4)),
        0xff7f7f7f
    );
    // Channels above one clamp to 255.
    assert_eq!(vec3_to_color(&Vector3::new(9 * FX_ONE, 0, 0)), 0xffff0000);
}
