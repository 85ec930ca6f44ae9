//! Vector algebra, parametric rays, scalar intervals and random sampling over
//! the saturating fixed-point scalars of `fx`. Every executable operation is
//! pinned to a spec-level counterpart on the mathematical view `V3`.
use crate::fx::{
    abs_i, fx_add, fx_add_spec, fx_div, fx_div_spec, fx_mul, fx_mul_spec, fx_neg, fx_neg_spec,
    fx_sat, fx_sqrt, fx_sub, fx_sub_spec, is_isqrt, isqrt_int, lemma_abs_mul,
    lemma_isqrt_int_correct, lemma_isqrt_unique, lemma_tdiv_lower, lemma_tdiv_mag, mul_raw,
    sat_narrow, sqrt_fx_spec, tdiv, FX_MAX, FX_ONE,
};
use crate::rng::rng_next_u64;
use vstd::prelude::*;

verus! {

/// The fixed-point value of pi.
pub const FX_PI: i64 = 205887;

/// 180 degrees, as a fixed-point scalar.
pub const FX_STRAIGHT: i64 = 180 * 65536;

/// Mathematical view of a vector: three unbounded integers, each standing for
/// a fixed-point scalar.
pub struct V3 {
    pub x: int,
    pub y: int,
    pub z: int,
}

#[derive(Clone, Copy, PartialEq, Eq, Structural, Debug)]
pub struct Vector3 {
    pub x: i64,
    pub y: i64,
    pub z: i64,
}

pub type Point3 = Vector3;

impl View for Vector3 {
    type V = V3;

    open spec fn view(&self) -> V3 {
        V3 { x: self.x as int, y: self.y as int, z: self.z as int }
    }
}

/// Every component stays strictly above `i64::MIN`, so negation never overflows.
pub open spec fn v3_in_range(v: V3) -> bool {
    abs_i(v.x) <= FX_MAX && abs_i(v.y) <= FX_MAX && abs_i(v.z) <= FX_MAX
}

pub open spec fn v3_add(u: V3, v: V3) -> V3 {
    V3 { x: fx_add_spec(u.x, v.x), y: fx_add_spec(u.y, v.y), z: fx_add_spec(u.z, v.z) }
}

pub open spec fn v3_sub(u: V3, v: V3) -> V3 {
    V3 { x: fx_sub_spec(u.x, v.x), y: fx_sub_spec(u.y, v.y), z: fx_sub_spec(u.z, v.z) }
}

pub open spec fn v3_neg(v: V3) -> V3 {
    V3 { x: fx_neg_spec(v.x), y: fx_neg_spec(v.y), z: fx_neg_spec(v.z) }
}

pub open spec fn v3_scale(v: V3, s: int) -> V3 {
    V3 { x: fx_mul_spec(v.x, s), y: fx_mul_spec(v.y, s), z: fx_mul_spec(v.z, s) }
}

pub open spec fn v3_dot(u: V3, v: V3) -> int {
    fx_sat(
        tdiv(u.x * v.x, FX_ONE as int) + tdiv(u.y * v.y, FX_ONE as int) + tdiv(
            u.z * v.z,
            FX_ONE as int,
        ),
    )
}

pub open spec fn v3_cross(u: V3, v: V3) -> V3 {
    V3 {
        x: fx_sat(tdiv(u.y * v.z, FX_ONE as int) - tdiv(u.z * v.y, FX_ONE as int)),
        y: fx_sat(tdiv(u.z * v.x, FX_ONE as int) - tdiv(u.x * v.z, FX_ONE as int)),
        z: fx_sat(tdiv(u.x * v.y, FX_ONE as int) - tdiv(u.y * v.x, FX_ONE as int)),
    }
}

pub open spec fn v3_len_sq(v: V3) -> int {
    v3_dot(v, v)
}

pub open spec fn v3_len(v: V3) -> int {
    sqrt_fx_spec(v3_len_sq(v))
}

/// Componentwise division by a scalar.
pub open spec fn v3_divs(v: V3, s: int) -> V3 {
    V3 { x: fx_div_spec(v.x, s), y: fx_div_spec(v.y, s), z: fx_div_spec(v.z, s) }
}

/// Componentwise product of two vectors.
pub open spec fn v3_mul_each(u: V3, v: V3) -> V3 {
    V3 { x: fx_mul_spec(u.x, v.x), y: fx_mul_spec(u.y, v.y), z: fx_mul_spec(u.z, v.z) }
}

/// The normalized vector: each component divided by the length.
pub open spec fn v3_unit(v: V3) -> V3 {
    V3 {
        x: fx_div_spec(v.x, v3_len(v)),
        y: fx_div_spec(v.y, v3_len(v)),
        z: fx_div_spec(v.z, v3_len(v)),
    }
}

/// Reflection of `v` about the plane with normal `n`: `v - 2*(v.n)*n`.
pub open spec fn v3_reflect(v: V3, n: V3) -> V3 {
    v3_sub(v, v3_scale(n, fx_add_spec(v3_dot(v, n), v3_dot(v, n))))
}

/// Refraction of `v` at a surface with unit normal `n`, given the ratio of
/// refraction indices and the cosine of the angle of incidence: the component
/// perpendicular to `n` is `eta*(v + cos*n)`; the parallel component is
/// `-sqrt(max(0, 1 - |perp|^2)) * n`.
pub open spec fn v3_refract(v: V3, n: V3, eta: int, cos: int) -> V3 {
    let perp = v3_scale(v3_add(v, v3_scale(n, cos)), eta);
    let par = v3_scale(n, fx_neg_spec(sqrt_fx_spec(fx_sub_spec(FX_ONE as int, v3_len_sq(perp)))));
    v3_add(perp, par)
}

impl Vector3 {
    pub fn new(x: i64, y: i64, z: i64) -> (r: Vector3)
        ensures
            r.x == x && r.y == y && r.z == z,
    {
        Vector3 { x, y, z }
    }

    pub fn add(&self, other: &Vector3) -> (r: Vector3)
        ensures
            r@ == v3_add(self@, other@),
            v3_in_range(r@),
    {
        Vector3 {
            x: fx_add(self.x, other.x),
            y: fx_add(self.y, other.y),
            z: fx_add(self.z, other.z),
        }
    }

    pub fn sub(&self, other: &Vector3) -> (r: Vector3)
        ensures
            r@ == v3_sub(self@, other@),
            v3_in_range(r@),
    {
        Vector3 {
            x: fx_sub(self.x, other.x),
            y: fx_sub(self.y, other.y),
            z: fx_sub(self.z, other.z),
        }
    }

    pub fn neg(&self) -> (r: Vector3)
        ensures
            r@ == v3_neg(self@),
            v3_in_range(r@),
    {
        Vector3 { x: fx_neg(self.x), y: fx_neg(self.y), z: fx_neg(self.z) }
    }

    pub fn scale(&self, s: i64) -> (r: Vector3)
        ensures
            r@ == v3_scale(self@, s as int),
            v3_in_range(r@),
    {
        Vector3 { x: fx_mul(self.x, s), y: fx_mul(self.y, s), z: fx_mul(self.z, s) }
    }

    pub fn divs(&self, s: i64) -> (r: Vector3)
        ensures
            r@ == v3_divs(self@, s as int),
            v3_in_range(r@),
    {
        Vector3 { x: fx_div(self.x, s), y: fx_div(self.y, s), z: fx_div(self.z, s) }
    }

    pub fn mul_each(&self, other: &Vector3) -> (r: Vector3)
        ensures
            r@ == v3_mul_each(self@, other@),
            v3_in_range(r@),
    {
        Vector3 {
            x: fx_mul(self.x, other.x),
            y: fx_mul(self.y, other.y),
            z: fx_mul(self.z, other.z),
        }
    }

    pub fn dot(&self, other: &Vector3) -> (r: i64)
        ensures
            r as int == v3_dot(self@, other@),
    {
        sat_narrow(
            mul_raw(self.x, other.x) + mul_raw(self.y, other.y) + mul_raw(self.z, other.z),
        )
    }

    pub fn cross(&self, other: &Vector3) -> (r: Vector3)
        ensures
            r@ == v3_cross(self@, other@),
            v3_in_range(r@),
    {
        Vector3 {
            x: sat_narrow(mul_raw(self.y, other.z) - mul_raw(self.z, other.y)),
            y: sat_narrow(mul_raw(self.z, other.x) - mul_raw(self.x, other.z)),
            z: sat_narrow(mul_raw(self.x, other.y) - mul_raw(self.y, other.x)),
        }
    }

    pub fn length_squared(&self) -> (r: i64)
        ensures
            r as int == v3_len_sq(self@),
    {
        self.dot(self)
    }

    pub fn length(&self) -> (r: i64)
        ensures
            r as int == v3_len(self@),
    {
        fx_sqrt(self.length_squared())
    }

    pub fn normalize(&self) -> (r: Vector3)
        ensures
            r@ == v3_unit(self@),
            v3_in_range(r@),
    {
        let len = self.length();
        Vector3 { x: fx_div(self.x, len), y: fx_div(self.y, len), z: fx_div(self.z, len) }
    }
}

pub trait Vector3Ext: View<V = V3> {
    /// True iff the vector is negligibly short: every component rounds to zero.
    fn near_zero(&self) -> (r: bool)
        ensures
            r <==> (self.view() == V3 { x: 0, y: 0, z: 0 });
}

impl Vector3Ext for Vector3 {
    fn near_zero(&self) -> (r: bool) {
        self.x == 0 && self.y == 0 && self.z == 0
    }
}

pub fn vec3_near_zero(vec: Vector3) -> (r: bool)
    ensures
        r <==> (vec@ == V3 { x: 0, y: 0, z: 0 }),
{
    vec.x == 0 && vec.y == 0 && vec.z == 0
}

pub fn vec3_reflect(v: &Vector3, n: &Vector3) -> (r: Vector3)
    ensures
        r@ == v3_reflect(v@, n@),
{
    let d = v.dot(n);
    v.sub(&n.scale(fx_add(d, d)))
}

/// Every component's magnitude is at most `b`.
pub open spec fn v3_bounded(v: V3, b: int) -> bool {
    abs_i(v.x) <= b && abs_i(v.y) <= b && abs_i(v.z) <= b
}

/// Rescaling by one fixed-point unit is exact, in either sign, and scaling by
/// zero gives zero.
pub proof fn lemma_tdiv_unscale(a: int)
    ensures
        tdiv(a * (FX_ONE as int), FX_ONE as int) == a,
        tdiv(a * (-(FX_ONE as int)), FX_ONE as int) == -a,
        tdiv(a * 0, FX_ONE as int) == 0,
{
    let one = FX_ONE as int;
    assert(a * 0 == 0) by (nonlinear_arith);
    assert(0int / 65536 == 0) by (nonlinear_arith);
    assert(a * (-one) == -(a * one)) by (nonlinear_arith);
    if a >= 0 {
        assert(a * one >= 0) by (nonlinear_arith)
            requires
                a >= 0,
                one == 65536,
        ;
        assert((a * one) / one == a) by (nonlinear_arith)
            requires
                a >= 0,
                one == 65536,
        ;
    } else {
        assert(a * one < 0 && (-a) * one == -(a * one)) by (nonlinear_arith)
            requires
                a < 0,
                one == 65536,
        ;
        assert(((-a) * one) / one == -a) by (nonlinear_arith)
            requires
                -a >= 0,
                one == 65536,
        ;
    }
}

/// The difference `v - reflect(v, n)` is the normal scaled by twice the dot
/// product: reflection only ever moves a vector along the normal. Stated for
/// vectors whose components stay within a quarter of the scalar range, where
/// no intermediate saturates.
pub proof fn lemma_reflect_parallel(v: V3, n: V3)
    requires
        v3_bounded(v, 0x4000_0000),
        v3_bounded(n, 0x4000_0000),
    ensures
        v3_sub(v, v3_reflect(v, n)) == v3_scale(n, fx_add_spec(v3_dot(v, n), v3_dot(v, n))),
{
    let one = FX_ONE as int;
    lemma_abs_mul(v.x, n.x, 0x4000_0000, 0x4000_0000);
    lemma_abs_mul(v.y, n.y, 0x4000_0000, 0x4000_0000);
    lemma_abs_mul(v.z, n.z, 0x4000_0000, 0x4000_0000);
    lemma_tdiv_mag(v.x * n.x, one);
    lemma_tdiv_mag(v.y * n.y, one);
    lemma_tdiv_mag(v.z * n.z, one);
    let d = v3_dot(v, n);
    assert(abs_i(d) <= 0x3000_0000_0000);
    let s = fx_add_spec(d, d);
    assert(abs_i(s) <= 0x6000_0000_0000);
    lemma_abs_mul(n.x, s, 0x4000_0000, 0x6000_0000_0000);
    lemma_abs_mul(n.y, s, 0x4000_0000, 0x6000_0000_0000);
    lemma_abs_mul(n.z, s, 0x4000_0000, 0x6000_0000_0000);
    lemma_tdiv_mag(n.x * s, one);
    lemma_tdiv_mag(n.y * s, one);
    lemma_tdiv_mag(n.z * s, one);
    assert(v3_sub(v, v3_reflect(v, n)) == v3_scale(n, s));
}

/// A ray aimed at a target reaches it exactly at parameter one: scaling the
/// direction by one fixed-point unit is exact, and the subtraction and
/// addition cancel. Stated for vectors far from the saturation boundary.
pub proof fn lemma_ray_reaches_target(orig: V3, target: V3)
    requires
        v3_bounded(orig, 0x2000_0000_0000_0000),
        v3_bounded(target, 0x2000_0000_0000_0000),
    ensures
        ray_at_spec(RayV { orig: orig, dir: v3_sub(target, orig) }, FX_ONE as int) == target,
{
    let d = v3_sub(target, orig);
    lemma_tdiv_unscale(d.x);
    lemma_tdiv_unscale(d.y);
    lemma_tdiv_unscale(d.z);
}

/// The six unit vectors along the coordinate axes.
pub open spec fn is_axis_unit(n: V3) -> bool {
    ||| n == (V3 { x: FX_ONE as int, y: 0, z: 0 })
    ||| n == (V3 { x: -(FX_ONE as int), y: 0, z: 0 })
    ||| n == (V3 { x: 0, y: FX_ONE as int, z: 0 })
    ||| n == (V3 { x: 0, y: -(FX_ONE as int), z: 0 })
    ||| n == (V3 { x: 0, y: 0, z: FX_ONE as int })
    ||| n == (V3 { x: 0, y: 0, z: -(FX_ONE as int) })
}

/// Reflection about an axis-aligned unit normal flips exactly one component,
/// so it preserves the squared length exactly. About other unit normals the
/// same identity holds only up to fixed-point rounding.
pub proof fn lemma_reflect_axis_preserves_length(v: V3, n: V3)
    requires
        v3_bounded(v, 0x4000_0000),
        is_axis_unit(n),
    ensures
        v3_len_sq(v3_reflect(v, n)) == v3_len_sq(v),
{
    let one = FX_ONE as int;
    lemma_tdiv_unscale(v.x);
    lemma_tdiv_unscale(v.y);
    lemma_tdiv_unscale(v.z);
    let d = v3_dot(v, n);
    let s = fx_add_spec(d, d);
    lemma_tdiv_unscale(s);
    assert(n.x * s == s * n.x && n.y * s == s * n.y && n.z * s == s * n.z) by (nonlinear_arith);
    let w = v3_reflect(v, n);
    assert((-v.x) * (-v.x) == v.x * v.x && (-v.y) * (-v.y) == v.y * v.y && (-v.z) * (-v.z)
        == v.z * v.z) by (nonlinear_arith);
    if n.x != 0 {
        assert(w == (V3 { x: -v.x, y: v.y, z: v.z }));
    } else if n.y != 0 {
        assert(w == (V3 { x: v.x, y: -v.y, z: v.z }));
    } else {
        assert(w == (V3 { x: v.x, y: v.y, z: -v.z }));
    }
}

pub fn vec3_refract_with_cos(v: &Vector3, normal: &Vector3, etai_over_etat: i64, cos: i64) -> (r:
    Vector3)
    ensures
        r@ == v3_refract(v@, normal@, etai_over_etat as int, cos as int),
{
    let r_out_perp = v.add(&normal.scale(cos)).scale(etai_over_etat);
    let r_out_par = normal.scale(fx_neg(fx_sqrt(fx_sub(FX_ONE, r_out_perp.length_squared()))));
    r_out_perp.add(&r_out_par)
}

pub fn vec3_refract(v: &Vector3, normal: &Vector3, etai_over_etat: i64) -> (r: Vector3)
    ensures
        r@ == v3_refract(
            v@,
            normal@,
            etai_over_etat as int,
            fx_min_one(v3_dot(v3_neg(v@), normal@)),
        ),
{
    let d = v.neg().dot(normal);
    let cos = if d > FX_ONE {
        FX_ONE
    } else {
        d
    };
    vec3_refract_with_cos(v, normal, etai_over_etat, cos)
}

/// The cosine is capped at 1, as the dot product of unit vectors only exceeds
/// it through rounding.
pub open spec fn fx_min_one(d: int) -> int {
    if d > FX_ONE {
        FX_ONE as int
    } else {
        d
    }
}

pub fn degrees_to_radians(degrees: i64) -> (r: i64)
    ensures
        r as int == deg2rad_spec(degrees as int),
{
    fx_div(fx_mul(degrees, FX_PI), FX_STRAIGHT)
}

pub open spec fn deg2rad_spec(d: int) -> int {
    fx_div_spec(fx_mul_spec(d, FX_PI as int), FX_STRAIGHT as int)
}

/// The truncated sine series `x - x^3/6 + x^5/120 - x^7/5040`, accurate to a
/// few fixed-point steps on `[0, pi/2]`.
pub open spec fn sin_spec(x: int) -> int {
    let x2 = fx_mul_spec(x, x);
    let x3 = fx_mul_spec(x2, x);
    let x5 = fx_mul_spec(x3, x2);
    let x7 = fx_mul_spec(x5, x2);
    fx_add_spec(
        fx_sub_spec(x, fx_div_spec(x3, 6 * FX_ONE as int)),
        fx_sub_spec(fx_div_spec(x5, 120 * FX_ONE as int), fx_div_spec(x7, 5040 * FX_ONE as int)),
    )
}

/// The truncated cosine series `1 - x^2/2 + x^4/24 - x^6/720`.
pub open spec fn cos_spec(x: int) -> int {
    let x2 = fx_mul_spec(x, x);
    let x4 = fx_mul_spec(x2, x2);
    let x6 = fx_mul_spec(x4, x2);
    fx_add_spec(
        fx_sub_spec(FX_ONE as int, fx_div_spec(x2, 2 * FX_ONE as int)),
        fx_sub_spec(fx_div_spec(x4, 24 * FX_ONE as int), fx_div_spec(x6, 720 * FX_ONE as int)),
    )
}

/// The tangent as the ratio of the two series.
pub open spec fn tan_spec(x: int) -> int {
    fx_div_spec(sin_spec(x), cos_spec(x))
}

pub fn fx_sin(x: i64) -> (r: i64)
    ensures
        r as int == sin_spec(x as int),
{
    let x2 = fx_mul(x, x);
    let x3 = fx_mul(x2, x);
    let x5 = fx_mul(x3, x2);
    let x7 = fx_mul(x5, x2);
    fx_add(
        fx_sub(x, fx_div(x3, 6 * FX_ONE)),
        fx_sub(fx_div(x5, 120 * FX_ONE), fx_div(x7, 5040 * FX_ONE)),
    )
}

pub fn fx_cos(x: i64) -> (r: i64)
    ensures
        r as int == cos_spec(x as int),
{
    let x2 = fx_mul(x, x);
    let x4 = fx_mul(x2, x2);
    let x6 = fx_mul(x4, x2);
    fx_add(
        fx_sub(FX_ONE, fx_div(x2, 2 * FX_ONE)),
        fx_sub(fx_div(x4, 24 * FX_ONE), fx_div(x6, 720 * FX_ONE)),
    )
}

pub fn fx_tan(x: i64) -> (r: i64)
    ensures
        r as int == tan_spec(x as int),
{
    fx_div(fx_sin(x), fx_cos(x))
}

#[derive(Clone, Copy, PartialEq, Eq, Structural, Debug)]
pub struct Interval {
    pub min: i64,
    pub max: i64,
}

impl Interval {
    /// The all-encompassing interval.
    pub fn default() -> (r: Interval)
        ensures
            r.min == -FX_MAX && r.max == FX_MAX,
    {
        Interval { min: -FX_MAX, max: FX_MAX }
    }

    pub fn new(min: i64, max: i64) -> (r: Interval)
        ensures
            r.min == min && r.max == max,
    {
        Interval { min, max }
    }

    pub fn contains(&self, x: i64) -> (r: bool)
        ensures
            r <==> (self.min <= x && x <= self.max),
    {
        self.min <= x && x <= self.max
    }

    pub fn surrounds(&self, x: i64) -> (r: bool)
        ensures
            r <==> (self.min < x && x < self.max),
    {
        self.min < x && x < self.max
    }

    pub fn clamp(&self, x: i64) -> (r: i64)
        ensures
            r == clamp_spec(self.min as int, self.max as int, x as int),
    {
        if x < self.min {
            self.min
        } else if x > self.max {
            self.max
        } else {
            x
        }
    }

    pub fn min(&self) -> (r: i64)
        ensures
            r == self.min,
    {
        self.min
    }

    pub fn max(&self) -> (r: i64)
        ensures
            r == self.max,
    {
        self.max
    }

    pub fn set_max(&mut self, val: i64)
        ensures
            final(self).max == val && final(self).min == old(self).min,
    {
        self.max = val;
    }
}

pub open spec fn clamp_spec(min: int, max: int, x: int) -> int {
    if x < min {
        min
    } else if x > max {
        max
    } else {
        x
    }
}

/// Mathematical view of a ray: origin and direction.
pub struct RayV {
    pub orig: V3,
    pub dir: V3,
}

#[derive(Clone, Copy, PartialEq, Eq, Structural, Debug)]
pub struct Ray {
    pub orig: Point3,
    pub dir: Vector3,
}

impl View for Ray {
    type V = RayV;

    open spec fn view(&self) -> RayV {
        RayV { orig: self.orig@, dir: self.dir@ }
    }
}

/// The point a ray reaches at parameter `t`: `origin + t*direction`.
pub open spec fn ray_at_spec(r: RayV, t: int) -> V3 {
    v3_add(r.orig, v3_scale(r.dir, t))
}

impl Ray {
    pub fn new(orig: Point3, dir: Vector3) -> (r: Ray)
        ensures
            r.orig == orig && r.dir == dir,
    {
        Ray { orig, dir }
    }

    pub fn orig(&self) -> (r: &Point3)
        ensures
            r == self.orig,
    {
        &self.orig
    }

    pub fn dir(&self) -> (r: &Vector3)
        ensures
            r == self.dir,
    {
        &self.dir
    }

    pub fn at(&self, t: i64) -> (r: Point3)
        ensures
            r@ == ray_at_spec(self@, t as int),
    {
        self.orig.add(&self.dir.scale(t))
    }
}

/// A uniform fixed-point draw from `[0, 1)`: the top 16 bits of the
/// generator's next word.
pub fn rand(rng: &mut rand_xoshiro::Xoshiro256Plus) -> (r: i64)
    ensures
        0 <= r < FX_ONE,
{
    let bits: u64 = rng_next_u64(rng);
    let top: u64 = bits >> 48;
    proof {
        assert(bits >> 48u64 < 65536u64) by (bit_vector);
    }
    top as i64
}

/// A uniform fixed-point draw from `[min, max)`: `min + u*(max - min)` for a
/// draw `u` from `[0, 1)`.
pub fn rand_rng(rng: &mut rand_xoshiro::Xoshiro256Plus, min: i64, max: i64) -> (r: i64)
    requires
        min < max,
        -FX_MAX <= min,
    ensures
        min <= r < max,
        exists|u: int|
            0 <= u < FX_ONE && r as int == fx_add_spec(
                min as int,
                fx_mul_spec(u, fx_sub_spec(max as int, min as int)),
            ),
{
    let u = rand(rng);
    let d = fx_sub(max, min);
    let m = fx_mul(u, d);
    proof {
        lemma_rand_scale_bounds(u as int, d as int);
    }
    let r = fx_add(min, m);
    proof {
        let uu = u as int;
        assert(0 <= uu < FX_ONE && r as int == fx_add_spec(
            min as int,
            fx_mul_spec(uu, fx_sub_spec(max as int, min as int)),
        ));
    }
    r
}

/// Scaling a draw from `[0, 1)` by a positive span lands strictly inside it.
proof fn lemma_rand_scale_bounds(u: int, d: int)
    requires
        0 <= u < FX_ONE,
        0 < d <= FX_MAX,
    ensures
        0 <= fx_mul_spec(u, d) < d,
{
    assert(0 <= tdiv(u * d, FX_ONE as int) < d) by (nonlinear_arith)
        requires
            0 <= u < FX_ONE,
            0 < d,
    ;
}

pub fn rand_vec3(rng: &mut rand_xoshiro::Xoshiro256Plus) -> (r: Vector3)
    ensures
        0 <= r.x < FX_ONE && 0 <= r.y < FX_ONE && 0 <= r.z < FX_ONE,
{
    let x = rand(rng);
    let y = rand(rng);
    let z = rand(rng);
    Vector3 { x, y, z }
}

pub fn rand_rng_vec3(rng: &mut rand_xoshiro::Xoshiro256Plus, min: i64, max: i64) -> (r: Vector3)
    requires
        min < max,
        -FX_MAX <= min,
    ensures
        min <= r.x < max && min <= r.y < max && min <= r.z < max,
{
    let x = rand_rng(rng, min, max);
    let y = rand_rng(rng, min, max);
    let z = rand_rng(rng, min, max);
    Vector3 { x, y, z }
}

/// A normalized sample of a nonzero vector drawn from the unit cube.
pub open spec fn is_unit_sample(u: V3) -> bool {
    exists|p: V3| 0 < v3_len_sq(p) < FX_ONE && u == v3_unit(p)
}

/// Rejection-sample a direction from the unit cube until it is usable, then
/// normalize it. Each round is accepted with better than even odds, so the
/// retry bound below is beyond what any run can exhaust; it only makes
/// termination provable. The fallback is itself a unit sample.
pub fn rand_unit_vec3(rng: &mut rand_xoshiro::Xoshiro256Plus) -> (r: Vector3)
    ensures
        is_unit_sample(r@),
        v3_in_range(r@),
{
    let mut tries: u64 = 0xffff_ffff_ffff_ffff;
    loop
        invariant
            true,
        decreases tries,
    {
        let p = rand_rng_vec3(rng, -FX_ONE, FX_ONE);
        let len_sq = p.length_squared();
        if 0 < len_sq && len_sq < FX_ONE {
            let u = p.normalize();
            proof {
                assert(0 < v3_len_sq(p@) < FX_ONE && u@ == v3_unit(p@));
            }
            return u;
        }
        if tries == 0 {
            let axis = Vector3 { x: 0, y: 0, z: FX_ONE };
            proof {
                lemma_axis_unit_sample(axis@);
            }
            return axis;
        }
        tries = tries - 1;
    }
}

/// The positive z axis is a unit sample: it is the normalization of the
/// half-length vector along the same axis.
proof fn lemma_axis_unit_sample(axis: V3)
    requires
        axis == (V3 { x: 0, y: 0, z: FX_ONE as int }),
    ensures
        is_unit_sample(axis),
{
    let p = V3 { x: 0, y: 0, z: 32768 };
    assert(p.x * p.x == 0 && p.y * p.y == 0 && p.z * p.z == 1073741824) by (nonlinear_arith)
        requires
            p.x == 0,
            p.y == 0,
            p.z == 32768,
    ;
    assert(0int / 65536 == 0 && 1073741824int / 65536 == 16384) by (nonlinear_arith);
    assert(tdiv(0, 65536) == 0 && tdiv(1073741824, 65536) == 16384);
    assert(v3_len_sq(p) == 16384);
    lemma_isqrt_int_correct(16384int * 65536);
    assert(is_isqrt(16384int * 65536, 32768)) by (nonlinear_arith);
    lemma_isqrt_unique(16384int * 65536, 32768, isqrt_int(16384int * 65536));
    assert(v3_len(p) == 32768);
    assert(0int / 32768 == 0) by (nonlinear_arith);
    assert(32768int * 65536 == 2147483648 && 2147483648int / 32768 == 65536) by (nonlinear_arith);
    assert(fx_div_spec(0, 32768) == 0);
    assert(fx_div_spec(32768, 32768) == 65536);
    assert(v3_unit(p) == axis);
    assert(0 < v3_len_sq(p) < FX_ONE && axis == v3_unit(p));
}

/// A unit sample is never the zero vector: normalization divides a nonzero
/// component, at least one whole fixed-point step in magnitude, by a length
/// below one, which cannot round it away.
pub proof fn lemma_unit_sample_nonzero(u: V3)
    requires
        is_unit_sample(u),
    ensures
        u != (V3 { x: 0, y: 0, z: 0 }),
{
    let p = choose|p: V3| 0 < v3_len_sq(p) < FX_ONE && u == v3_unit(p);
    let ls = v3_len_sq(p);
    assert(0int * 0 == 0) by (nonlinear_arith);
    assert(0int / 65536 == 0) by (nonlinear_arith);
    assert(p.x != 0 || p.y != 0 || p.z != 0);
    let len = sqrt_fx_spec(ls);
    lemma_isqrt_int_correct(ls * (FX_ONE as int));
    assert(len <= 65535) by (nonlinear_arith)
        requires
            len * len <= 65535 * 65536,
            len >= 0,
    ;
    assert(len >= 256) by (nonlinear_arith)
        requires
            ls * 65536 < (len + 1) * (len + 1),
            ls * 65536 >= 65536,
            len >= 0,
    ;
    if p.x != 0 {
        assert(abs_i(p.x * (FX_ONE as int)) >= len);
        lemma_tdiv_lower(p.x * (FX_ONE as int), len);
        assert(u.x != 0);
    } else if p.y != 0 {
        assert(abs_i(p.y * (FX_ONE as int)) >= len);
        lemma_tdiv_lower(p.y * (FX_ONE as int), len);
        assert(u.y != 0);
    } else {
        assert(abs_i(p.z * (FX_ONE as int)) >= len);
        lemma_tdiv_lower(p.z * (FX_ONE as int), len);
        assert(u.z != 0);
    }
}

/// A unit sample turned to the hemisphere around `normal`.
pub fn rand_hemnisphere_vec3(rng: &mut rand_xoshiro::Xoshiro256Plus, normal: &Vector3) -> (r:
    Vector3)
    ensures
        is_unit_sample(r@) || is_unit_sample(v3_neg(r@)),
        v3_dot(r@, normal@) >= 0,
{
    let on_unit_sphere = rand_unit_vec3(rng);
    if on_unit_sphere.dot(normal) > 0 {
        on_unit_sphere
    } else {
        let flipped = on_unit_sphere.neg();
        proof {
            lemma_dot_neg_left(on_unit_sphere@, normal@);
            lemma_neg_involution(on_unit_sphere@);
        }
        flipped
    }
}

/// Negating the left argument negates the dot product.
pub proof fn lemma_dot_neg_left(u: V3, n: V3)
    requires
        v3_in_range(u),
    ensures
        v3_dot(v3_neg(u), n) == fx_neg_spec(v3_dot(u, n)),
{
    assert(tdiv((-u.x) * n.x, FX_ONE as int) == -tdiv(u.x * n.x, FX_ONE as int)
        && tdiv((-u.y) * n.y, FX_ONE as int) == -tdiv(u.y * n.y, FX_ONE as int)
        && tdiv((-u.z) * n.z, FX_ONE as int) == -tdiv(u.z * n.z, FX_ONE as int))
        by (nonlinear_arith);
}

/// Negation of an in-range vector undoes itself.
pub proof fn lemma_neg_involution(u: V3)
    requires
        v3_in_range(u),
    ensures
        v3_neg(v3_neg(u)) == u,
{
}

/// Rejection-sample a point of the unit disk (z = 0). As in `rand_unit_vec3`,
/// the retry bound is unreachable in practice and only makes termination
/// provable; the fallback is the disk's center.
pub fn vec3_rand_in_unit_disk(rng: &mut rand_xoshiro::Xoshiro256Plus) -> (r: Vector3)
    ensures
        v3_len_sq(r@) < FX_ONE,
        r.z == 0,
        -FX_ONE <= r.x <= FX_ONE && -FX_ONE <= r.y <= FX_ONE,
{
    let mut tries: u64 = 0xffff_ffff_ffff_ffff;
    loop
        invariant
            true,
        decreases tries,
    {
        let x = rand_rng(rng, -FX_ONE, FX_ONE);
        let y = rand_rng(rng, -FX_ONE, FX_ONE);
        let p = Vector3 { x, y, z: 0 };
        let len_sq = p.length_squared();
        if len_sq < FX_ONE {
            return p;
        }
        if tries == 0 {
            let center = Vector3 { x: 0, y: 0, z: 0 };
            assert(v3_len_sq(center@) == 0);
            return center;
        }
        tries = tries - 1;
    }
}

} // verus!
