//! Material scattering: diffuse, metallic and dielectric surfaces over the
//! fixed-point primitives, each with a contract that pins its deterministic
//! parts exactly and characterizes every random outcome.
use crate::color::Color;
use crate::fx::{
    fx_add, fx_add_spec, fx_div, fx_div_spec, fx_mul, fx_mul_spec, fx_sqrt, fx_sub, fx_sub_spec,
    sqrt_fx_spec, tdiv, FX_ONE,
};
use crate::hittable::HitRecord;
use crate::math::{
    fx_min_one, is_unit_sample, rand, rand_unit_vec3, v3_add, v3_dot, v3_in_range, v3_neg,
    v3_reflect, v3_refract, v3_scale, v3_unit, vec3_reflect, vec3_refract_with_cos, Ray, RayV,
    Vector3, Vector3Ext, V3,
};
use vstd::prelude::*;

verus! {

#[derive(Clone, Copy, PartialEq, Eq, Structural, Debug)]
pub struct Lambertian {
    pub albedo: Color,
}

#[derive(Clone, Copy, PartialEq, Eq, Structural, Debug)]
pub struct LambertianConfig {
    pub albedo: Color,
}

#[derive(Clone, Copy, PartialEq, Eq, Structural, Debug)]
pub struct Metal {
    pub albedo: Color,
    pub fuzz: i64,
}

#[derive(Clone, Copy, PartialEq, Eq, Structural, Debug)]
pub struct MetalConfig {
    pub albedo: Color,
    pub fuzz: i64,
}

#[derive(Clone, Copy, PartialEq, Eq, Structural, Debug)]
pub struct Dielectric {
    pub refraction_index: i64,
}

#[derive(Clone, Copy, PartialEq, Eq, Structural, Debug)]
pub struct DielectricConfig {
    pub refraction_index: i64,
}

/// The closed set of material kinds; geometry stores one by value.
#[derive(Clone, Copy, PartialEq, Eq, Structural, Debug)]
pub enum Material {
    Lambertian(Lambertian),
    Metal(Metal),
    Dielectric(Dielectric),
}

/// The zero vector.
pub open spec fn v3_zero() -> V3 {
    V3 { x: 0, y: 0, z: 0 }
}

/// The diffuse scatter direction for unit sample `u`: the surface normal
/// nudged by `u`, or the bare normal where the sum is degenerate.
pub open spec fn lambertian_dir(n: V3, u: V3) -> V3 {
    if v3_add(n, u) == v3_zero() {
        n
    } else {
        v3_add(n, u)
    }
}

/// The metallic scatter direction for unit sample `u`: the normalized mirror
/// reflection, fuzzed by `u` scaled with the fuzz factor.
pub open spec fn metal_dir(ray_dir: V3, n: V3, fuzz: int, u: V3) -> V3 {
    v3_add(v3_unit(v3_reflect(ray_dir, n)), v3_scale(u, fuzz))
}

/// The Schlick reflectance: `r0 + (1 - r0)*(1 - cos)^5` with
/// `r0 = ((1 - ri)/(1 + ri))^2`.
pub open spec fn schlick_spec(cos: int, ref_idx: int) -> int {
    let t = fx_div_spec(fx_sub_spec(FX_ONE as int, ref_idx), fx_add_spec(FX_ONE as int, ref_idx));
    let r0 = fx_mul_spec(t, t);
    let u = fx_sub_spec(FX_ONE as int, cos);
    let u2 = fx_mul_spec(u, u);
    let u4 = fx_mul_spec(u2, u2);
    let u5 = fx_mul_spec(u4, u);
    fx_add_spec(r0, fx_mul_spec(fx_sub_spec(FX_ONE as int, r0), u5))
}

/// The effective refraction ratio at a hit: inverted when entering from the
/// outside.
pub open spec fn dielectric_ratio(refraction_index: int, front_face: bool) -> int {
    if front_face {
        fx_div_spec(FX_ONE as int, refraction_index)
    } else {
        refraction_index
    }
}

/// The dielectric scatter direction for the uniform draw `q` from `[0, 1)`:
/// reflect on total internal reflection or when the Schlick reflectance
/// exceeds `q`, refract otherwise.
pub open spec fn dielectric_dir(
    refraction_index: int,
    ray_dir: V3,
    n: V3,
    front_face: bool,
    q: int,
) -> V3 {
    let ri = dielectric_ratio(refraction_index, front_face);
    let unit_dir = v3_unit(ray_dir);
    let cos = fx_min_one(v3_dot(v3_neg(unit_dir), n));
    let sin = sqrt_fx_spec(fx_sub_spec(FX_ONE as int, fx_mul_spec(cos, cos)));
    let cannot_refract = fx_mul_spec(ri, sin) > FX_ONE;
    if cannot_refract || schlick_spec(cos, ri) > q {
        v3_reflect(unit_dir, n)
    } else {
        v3_refract(unit_dir, n, ri, cos)
    }
}

impl Lambertian {
    pub fn new(config: LambertianConfig) -> (r: Lambertian)
        ensures
            r.albedo == config.albedo,
    {
        Lambertian { albedo: config.albedo }
    }

    /// Diffuse scattering: never absorbs, the attenuation is exactly the
    /// albedo, and the new ray leaves the hit point along the normal nudged
    /// by a unit sample; the fallback to the bare normal keeps the scattered
    /// direction away from the zero vector.
    pub fn scatter(
        &self,
        _ray: &Ray,
        hit: &HitRecord,
        rng: &mut rand_xoshiro::Xoshiro256Plus,
    ) -> (r: Option<(Color, Ray)>)
        ensures
            r is Some,
            r->Some_0.0 == self.albedo,
            r->Some_0.1.orig == hit.p,
            exists|u: V3|
                is_unit_sample(u) && r->Some_0.1.dir@ == lambertian_dir(hit.normal@, u),
            r->Some_0.1.dir@ != v3_zero(),
    {
        let u = rand_unit_vec3(rng);
        let summed = hit.normal.add(&u);
        let dir = if summed.near_zero() {
            hit.normal
        } else {
            summed
        };
        proof {
            assert(is_unit_sample(u@) && dir@ == lambertian_dir(hit.normal@, u@));
            if summed@ == v3_zero() {
                crate::math::lemma_unit_sample_nonzero(u@);
                assert(hit.normal@.x == -u@.x && hit.normal@.y == -u@.y && hit.normal@.z
                    == -u@.z);
                assert(dir@ != v3_zero());
            } else {
                assert(dir@ != v3_zero());
            }
        }
        Some((self.albedo, Ray::new(hit.p, dir)))
    }
}

impl Metal {
    pub fn new(config: MetalConfig) -> (r: Metal)
        ensures
            r.albedo == config.albedo,
            r.fuzz == config.fuzz,
    {
        Metal { albedo: config.albedo, fuzz: config.fuzz }
    }

    /// Specular scattering: the mirror direction fuzzed by a scaled unit
    /// sample; absorbed exactly when the fuzzed direction points into the
    /// surface. With zero fuzz the direction is the exact normalized mirror
    /// reflection.
    pub fn scatter(
        &self,
        ray: &Ray,
        hit: &HitRecord,
        rng: &mut rand_xoshiro::Xoshiro256Plus,
    ) -> (r: Option<(Color, Ray)>)
        ensures
            r is Some ==> r->Some_0.0 == self.albedo && r->Some_0.1.orig == hit.p,
            exists|u: V3|
                is_unit_sample(u) && ({
                    let d = metal_dir(ray.dir@, hit.normal@, self.fuzz as int, u);
                    if v3_dot(d, hit.normal@) > 0 {
                        r is Some && r->Some_0.1.dir@ == d
                    } else {
                        r is None
                    }
                }),
            self.fuzz == 0 ==> ({
                let mirror = v3_unit(v3_reflect(ray.dir@, hit.normal@));
                if v3_dot(mirror, hit.normal@) > 0 {
                    r is Some && r->Some_0.1.dir@ == mirror
                } else {
                    r is None
                }
            }),
    {
        let reflected = vec3_reflect(ray.dir(), &hit.normal);
        let u = rand_unit_vec3(rng);
        let fuzzed = reflected.normalize().add(&u.scale(self.fuzz));
        let scattered = Ray::new(hit.p, fuzzed);
        proof {
            assert(fuzzed@ == metal_dir(ray.dir@, hit.normal@, self.fuzz as int, u@));
            if self.fuzz == 0 {
                lemma_scale_zero(u@);
                lemma_add_zero(v3_unit(v3_reflect(ray.dir@, hit.normal@)));
            }
        }
        if scattered.dir.dot(&hit.normal) > 0 {
            let result = Some((self.albedo, scattered));
            proof {
                let uu = u@;
                assert(is_unit_sample(uu) && ({
                    let d = metal_dir(ray.dir@, hit.normal@, self.fuzz as int, uu);
                    v3_dot(d, hit.normal@) > 0
                }));
            }
            result
        } else {
            proof {
                let uu = u@;
                assert(is_unit_sample(uu) && ({
                    let d = metal_dir(ray.dir@, hit.normal@, self.fuzz as int, uu);
                    !(v3_dot(d, hit.normal@) > 0)
                }));
            }
            None
        }
    }
}

/// Scaling any vector by zero gives the zero vector.
pub proof fn lemma_scale_zero(u: V3)
    ensures
        v3_scale(u, 0) == v3_zero(),
{
    assert(u.x * 0 == 0 && u.y * 0 == 0 && u.z * 0 == 0) by (nonlinear_arith);
    assert(tdiv(0, FX_ONE as int) == 0);
}

/// Adding the zero vector changes nothing, for in-range vectors.
pub proof fn lemma_add_zero(w: V3)
    requires
        v3_in_range(w),
    ensures
        v3_add(w, v3_zero()) == w,
{
}

impl Dielectric {
    pub fn new(config: DielectricConfig) -> (r: Dielectric)
        ensures
            r.refraction_index == config.refraction_index,
    {
        Dielectric { refraction_index: config.refraction_index }
    }

    fn reflectance(cos: i64, ref_idx: i64) -> (r: i64)
        ensures
            r as int == schlick_spec(cos as int, ref_idx as int),
    {
        let t = fx_div(fx_sub(FX_ONE, ref_idx), fx_add(FX_ONE, ref_idx));
        let r0 = fx_mul(t, t);
        let u = fx_sub(FX_ONE, cos);
        let u2 = fx_mul(u, u);
        let u4 = fx_mul(u2, u2);
        let u5 = fx_mul(u4, u);
        fx_add(r0, fx_mul(fx_sub(FX_ONE, r0), u5))
    }

    /// Refractive scattering: never absorbs and never tints; the new ray
    /// leaves the hit point in the direction `dielectric_dir` picks for some
    /// uniform draw.
    pub fn scatter(
        &self,
        ray: &Ray,
        hit: &HitRecord,
        rng: &mut rand_xoshiro::Xoshiro256Plus,
    ) -> (r: Option<(Color, Ray)>)
        ensures
            r is Some,
            r->Some_0.0@ == spec_white(),
            r->Some_0.1.orig == hit.p,
            exists|q: int|
                0 <= q < FX_ONE && r->Some_0.1.dir@ == dielectric_dir(
                    self.refraction_index as int,
                    ray.dir@,
                    hit.normal@,
                    hit.front_face,
                    q,
                ),
    {
        let ri = if hit.front_face {
            fx_div(FX_ONE, self.refraction_index)
        } else {
            self.refraction_index
        };
        let unit_dir = ray.dir.normalize();
        let d = unit_dir.neg().dot(&hit.normal);
        let cos = if d > FX_ONE {
            FX_ONE
        } else {
            d
        };
        let sin = fx_sqrt(fx_sub(FX_ONE, fx_mul(cos, cos)));
        let cannot_refract = fx_mul(ri, sin) > FX_ONE;
        let q = rand(rng);
        let dir = if cannot_refract || Dielectric::reflectance(cos, ri) > q {
            vec3_reflect(&unit_dir, &hit.normal)
        } else {
            vec3_refract_with_cos(&unit_dir, &hit.normal, ri, cos)
        };
        proof {
            let qq = q as int;
            assert(0 <= qq < FX_ONE && dir@ == dielectric_dir(
                self.refraction_index as int,
                ray.dir@,
                hit.normal@,
                hit.front_face,
                qq,
            ));
        }
        Some((Vector3::new(FX_ONE, FX_ONE, FX_ONE), Ray::new(hit.p, dir)))
    }
}

/// At normal incidence (cosine of the incident angle at least 1 after
/// rounding) the sine term vanishes, so total internal reflection cannot
/// occur: whenever the Schlick reflectance at the effective ratio does not
/// exceed the drawn threshold, the dielectric refracts. With a seeded
/// generator the drawn threshold, and so the outcome, is reproducible.
pub proof fn lemma_dielectric_refracts_at_normal_incidence(
    refraction_index: int,
    ray_dir: V3,
    n: V3,
    front_face: bool,
    q: int,
)
    requires
        v3_dot(v3_neg(v3_unit(ray_dir)), n) >= FX_ONE,
        0 <= q < FX_ONE,
    ensures
        ({
            let ri = dielectric_ratio(refraction_index, front_face);
            schlick_spec(FX_ONE as int, ri) <= q ==> dielectric_dir(
                refraction_index,
                ray_dir,
                n,
                front_face,
                q,
            ) == v3_refract(v3_unit(ray_dir), n, ri, FX_ONE as int)
        }),
{
    let one = FX_ONE as int;
    let ri = dielectric_ratio(refraction_index, front_face);
    let cos = fx_min_one(v3_dot(v3_neg(v3_unit(ray_dir)), n));
    assert(cos == one);
    assert(one * one == 65536 * 65536 && 65536int * 65536 / 65536 == 65536) by (nonlinear_arith)
        requires
            one == 65536,
    ;
    assert(fx_mul_spec(one, one) == one);
    assert(fx_sub_spec(one, fx_mul_spec(cos, cos)) == 0);
    assert(sqrt_fx_spec(0) == 0);
    assert(ri * 0 == 0) by (nonlinear_arith);
    assert(0int / 65536 == 0) by (nonlinear_arith);
    assert(fx_mul_spec(ri, 0) == 0);
}

/// White, as a color.
pub open spec fn spec_white() -> V3 {
    V3 { x: FX_ONE as int, y: FX_ONE as int, z: FX_ONE as int }
}

/// Whether `(att, dir)` is an outcome the material can scatter to at a hit
/// with the given surface data, for some draw of the generator: the exact
/// per-variant rules of the three `scatter` implementations, quantified over
/// every admissible random sample.
pub open spec fn scatter_admissible(
    m: Material,
    ray: RayV,
    normal: V3,
    front_face: bool,
    att: V3,
    dir: V3,
) -> bool {
    match m {
        Material::Lambertian(l) => att == l.albedo@ && exists|u: V3|
            #[trigger] is_unit_sample(u) && dir == lambertian_dir(normal, u),
        Material::Metal(mt) => att == mt.albedo@ && v3_dot(dir, normal) > 0 && exists|u: V3|
            #[trigger] is_unit_sample(u) && dir == metal_dir(ray.dir, normal, mt.fuzz as int, u),
        Material::Dielectric(d) => att == spec_white() && exists|q: int|
            0 <= q < FX_ONE && dir == dielectric_dir(
                d.refraction_index as int,
                ray.dir,
                normal,
                front_face,
                q,
            ),
    }
}

/// Whether the material can absorb the ray at this hit for some draw: only a
/// metal absorbs, exactly when the fuzzed mirror direction points into the
/// surface.
pub open spec fn scatter_absorbs(m: Material, ray: RayV, normal: V3) -> bool {
    match m {
        Material::Metal(mt) => exists|u: V3|
            #[trigger] is_unit_sample(u) && v3_dot(
                metal_dir(ray.dir, normal, mt.fuzz as int, u),
                normal,
            ) <= 0,
        _ => false,
    }
}

impl Material {
    /// Dispatch to the variant's scatter rule: a scattered ray leaves the hit
    /// point in an admissible direction with the variant's attenuation, and
    /// absorption happens only where the variant can absorb.
    pub fn scatter(
        &self,
        ray: &Ray,
        hit: &HitRecord,
        rng: &mut rand_xoshiro::Xoshiro256Plus,
    ) -> (r: Option<(Color, Ray)>)
        ensures
            self is Lambertian ==> r is Some && r->Some_0.0 == self->Lambertian_0.albedo,
            self is Dielectric ==> r is Some && r->Some_0.0@ == spec_white(),
            self is Metal && r is Some ==> r->Some_0.0 == self->Metal_0.albedo,
            r is Some ==> r->Some_0.1.orig == hit.p && scatter_admissible(
                *self,
                ray@,
                hit.normal@,
                hit.front_face,
                r->Some_0.0@,
                r->Some_0.1.dir@,
            ),
            r is None ==> scatter_absorbs(*self, ray@, hit.normal@),
    {
        match self {
            Material::Lambertian(m) => {
                let r = m.scatter(ray, hit, rng);
                proof {
                    let u = choose|u: V3|
                        is_unit_sample(u) && r->Some_0.1.dir@ == lambertian_dir(hit.normal@, u);
                    assert(is_unit_sample(u) && r->Some_0.1.dir@ == lambertian_dir(
                        hit.normal@,
                        u,
                    ));
                    assert(r->Some_0.0@ == m.albedo@);
                    assert(scatter_admissible(
                        *self,
                        ray@,
                        hit.normal@,
                        hit.front_face,
                        r->Some_0.0@,
                        r->Some_0.1.dir@,
                    ));
                }
                r
            },
            Material::Metal(m) => {
                let r = m.scatter(ray, hit, rng);
                proof {
                    let u = choose|u: V3|
                        is_unit_sample(u) && ({
                            let d = metal_dir(ray.dir@, hit.normal@, m.fuzz as int, u);
                            if v3_dot(d, hit.normal@) > 0 {
                                r is Some && r->Some_0.1.dir@ == d
                            } else {
                                r is None
                            }
                        });
                    assert(is_unit_sample(u));
                    let d = metal_dir(ray.dir@, hit.normal@, m.fuzz as int, u);
                    if v3_dot(d, hit.normal@) > 0 {
                        assert(r is Some && r->Some_0.1.dir@ == d);
                        assert(r->Some_0.0@ == m.albedo@);
                        assert(v3_dot(r->Some_0.1.dir@, hit.normal@) > 0);
                        assert(ray@.dir == ray.dir@);
                        assert(exists|uu: V3|
                            #[trigger] is_unit_sample(uu) && r->Some_0.1.dir@ == metal_dir(
                                ray@.dir,
                                hit.normal@,
                                m.fuzz as int,
                                uu,
                            ));
                        assert(*self == Material::Metal(*m));
                        assert(scatter_admissible(
                            *self,
                            ray@,
                            hit.normal@,
                            hit.front_face,
                            r->Some_0.0@,
                            r->Some_0.1.dir@,
                        ));
                    } else {
                        assert(r is None && v3_dot(d, hit.normal@) <= 0);
                        assert(scatter_absorbs(*self, ray@, hit.normal@));
                    }
                }
                r
            },
            Material::Dielectric(m) => {
                let r = m.scatter(ray, hit, rng);
                proof {
                    let q = choose|q: int|
                        0 <= q < FX_ONE && r->Some_0.1.dir@ == dielectric_dir(
                            m.refraction_index as int,
                            ray.dir@,
                            hit.normal@,
                            hit.front_face,
                            q,
                        );
                    assert(0 <= q < FX_ONE && r->Some_0.1.dir@ == dielectric_dir(
                        m.refraction_index as int,
                        ray.dir@,
                        hit.normal@,
                        hit.front_face,
                        q,
                    ));
                    assert(ray@.dir == ray.dir@);
                    assert(exists|qq: int|
                        0 <= qq < FX_ONE && r->Some_0.1.dir@ == #[trigger] dielectric_dir(
                            m.refraction_index as int,
                            ray@.dir,
                            hit.normal@,
                            hit.front_face,
                            qq,
                        ));
                    assert(scatter_admissible(
                        *self,
                        ray@,
                        hit.normal@,
                        hit.front_face,
                        r->Some_0.0@,
                        r->Some_0.1.dir@,
                    ));
                }
                r
            },
        }
    }
}

} // verus!
