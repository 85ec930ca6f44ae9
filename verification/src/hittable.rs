//! Ray-geometry intersection: spheres and the ordered scene container, with
//! contracts that pin the returned hit to a spec-level mirror and a proof
//! that the scene returns the nearest intersection regardless of insertion
//! order.
use crate::fx::{
    fx_add, fx_add_spec, fx_div, fx_div_spec, fx_mul, fx_mul_spec, fx_sqrt, fx_sub, fx_sub_spec,
    sqrt_fx_spec, FX_ONE,
};
use crate::materials::Material;
use crate::math::{
    ray_at_spec, v3_dot, v3_len_sq, v3_neg, v3_sub, v3_unit, Interval, Point3, Ray, RayV,
    Vector3, V3,
};
use vstd::prelude::*;

verus! {

/// Mathematical view of a hit: point, oriented normal, ray parameter and
/// which side was struck.
pub struct HitPart {
    pub p: V3,
    pub normal: V3,
    pub t: int,
    pub front_face: bool,
}

/// A hit together with the struck object's material.
pub struct HitFull {
    pub part: HitPart,
    pub mat: Material,
}

#[derive(Clone, Copy)]
pub struct HitRecord {
    pub p: Point3,
    pub normal: Vector3,
    pub t: i64,
    pub front_face: bool,
    pub mat: Material,
}

impl HitRecord {
    pub fn new(p: Point3, normal: Vector3, t: i64, front_face: bool, mat: Material) -> (r:
        HitRecord)
        ensures
            r.p == p && r.normal == normal && r.t == t && r.front_face == front_face && r.mat
                == mat,
    {
        HitRecord { p, normal, t, front_face, mat }
    }

    pub fn p(&self) -> (r: &Point3)
        ensures
            r == self.p,
    {
        &self.p
    }

    pub fn normal(&self) -> (r: &Vector3)
        ensures
            r == self.normal,
    {
        &self.normal
    }

    pub fn t(&self) -> (r: i64)
        ensures
            r == self.t,
    {
        self.t
    }

    pub fn front_face(&self) -> (r: bool)
        ensures
            r == self.front_face,
    {
        self.front_face
    }

    pub fn mat(&self) -> (r: &Material)
        ensures
            r == self.mat,
    {
        &self.mat
    }
}

/// The record mirrors the spec-level hit and carries the given material.
pub open spec fn rec_matches(rec: HitRecord, h: HitFull) -> bool {
    rec.p@ == h.part.p && rec.normal@ == h.part.normal && rec.t as int == h.part.t
        && rec.front_face == h.part.front_face && rec.mat == h.mat
}

#[derive(Clone, Copy)]
pub struct Sphere {
    pub center: Point3,
    pub radius: i64,
    pub mat: Material,
}

/// What intersecting a sphere returns: the quadratic in the ray parameter is
/// solved; the smaller root is taken if it lies strictly inside
/// `(tmin, tmax)`, else the larger root under the same test, else no hit. The
/// stored normal is the outward normal oriented against the incoming ray.
pub open spec fn sphere_hit_spec(center: V3, radius: int, ray: RayV, tmin: int, tmax: int) -> Option<
    HitPart,
> {
    let oc = v3_sub(center, ray.orig);
    let a = v3_len_sq(ray.dir);
    let h = v3_dot(ray.dir, oc);
    let c = fx_sub_spec(v3_len_sq(oc), fx_mul_spec(radius, radius));
    let d = fx_sub_spec(fx_mul_spec(h, h), fx_mul_spec(a, c));
    if d < 0 {
        None
    } else {
        let sq = sqrt_fx_spec(d);
        let root1 = fx_div_spec(fx_sub_spec(h, sq), a);
        let root2 = fx_div_spec(fx_add_spec(h, sq), a);
        if !(tmin < root1 < tmax) && !(tmin < root2 < tmax) {
            None
        } else {
            let root = if tmin < root1 < tmax {
                root1
            } else {
                root2
            };
            let hp = ray_at_spec(ray, root);
            let outward = v3_unit(v3_sub(hp, center));
            let front = v3_dot(ray.dir, outward) < 0;
            Some(
                HitPart {
                    p: hp,
                    normal: if front {
                        outward
                    } else {
                        v3_neg(outward)
                    },
                    t: root,
                    front_face: front,
                },
            )
        }
    }
}

/// A sphere's hit, together with its material.
pub open spec fn sphere_hit_full(s: Sphere, ray: RayV, tmin: int, tmax: int) -> Option<HitFull> {
    match sphere_hit_spec(s.center@, s.radius as int, ray, tmin, tmax) {
        Option::None => None,
        Option::Some(hp) => Some(HitFull { part: hp, mat: s.mat }),
    }
}

impl Sphere {
    pub fn new(center: Point3, radius: i64, mat: Material) -> (r: Sphere)
        ensures
            r.center == center && r.radius == radius && r.mat == mat,
    {
        Sphere { center, radius, mat }
    }

    /// Intersect a ray with this sphere inside the open interval `ray_t`.
    pub fn hit(&self, ray: &Ray, ray_t: &Interval) -> (r: Option<HitRecord>)
        ensures
            (match sphere_hit_full(*self, ray@, ray_t.min as int, ray_t.max as int) {
                Option::None => r is None,
                Option::Some(h) => r is Some && rec_matches(r->0, h),
            }),
    {
        let oc = self.center.sub(ray.orig());
        let a = ray.dir().length_squared();
        let h = ray.dir().dot(&oc);
        let c = fx_sub(oc.length_squared(), fx_mul(self.radius, self.radius));
        let d = fx_sub(fx_mul(h, h), fx_mul(a, c));
        if d < 0 {
            return None;
        }
        let sq = fx_sqrt(d);
        let mut root = fx_div(fx_sub(h, sq), a);
        if root <= ray_t.min() || root >= ray_t.max() {
            root = fx_div(fx_add(h, sq), a);
            if root <= ray_t.min() || root >= ray_t.max() {
                return None;
            }
        }
        let hit_point = ray.at(root);
        let normal = hit_point.sub(&self.center).normalize();
        let front_face = ray.dir().dot(&normal) < 0;
        let normal = if front_face {
            normal
        } else {
            normal.neg()
        };
        Some(HitRecord::new(hit_point, normal, root, front_face, self.mat))
    }
}

/// Lift an optional record back to its spec-level mirror.
pub open spec fn rec_full(r: Option<HitRecord>) -> Option<HitFull> {
    match r {
        Option::None => None,
        Option::Some(rec) => Some(
            HitFull {
                part: HitPart {
                    p: rec.p@,
                    normal: rec.normal@,
                    t: rec.t as int,
                    front_face: rec.front_face,
                },
                mat: rec.mat,
            },
        ),
    }
}

/// The linear scan over the scene's objects with its shrinking upper bound:
/// each accepted hit strictly tightens the bound for the objects after it.
pub open spec fn scan_spec(
    objs: Seq<Sphere>,
    ray: RayV,
    tmin: int,
    bound: int,
    best: Option<HitFull>,
) -> Option<HitFull>
    decreases objs.len(),
{
    if objs.len() == 0 {
        best
    } else {
        match sphere_hit_full(objs[0], ray, tmin, bound) {
            Option::Some(h) => scan_spec(objs.drop_first(), ray, tmin, h.part.t, Some(h)),
            Option::None => scan_spec(objs.drop_first(), ray, tmin, bound, best),
        }
    }
}

/// What the scene's hit search returns.
pub open spec fn list_hit_spec(objs: Seq<Sphere>, ray: RayV, tmin: int, tmax: int) -> Option<
    HitFull,
> {
    scan_spec(objs, ray, tmin, tmax, None)
}

/// Squared lengths are nonnegative.
pub proof fn lemma_len_sq_nonneg(v: V3)
    ensures
        v3_len_sq(v) >= 0,
{
    let a = v.x * v.x;
    let b = v.y * v.y;
    let c = v.z * v.z;
    assert(v.x * v.x >= 0 && v.y * v.y >= 0 && v.z * v.z >= 0) by (nonlinear_arith);
    assert(a / 65536 >= 0 && b / 65536 >= 0 && c / 65536 >= 0) by (nonlinear_arith)
        requires
            a >= 0,
            b >= 0,
            c >= 0,
    ;
}

/// The fixed-point square root is nonnegative.
pub proof fn lemma_sqrt_fx_nonneg(a: int)
    ensures
        sqrt_fx_spec(a) >= 0,
{
    if a > 0 {
        crate::fx::lemma_isqrt_int_correct(a * (FX_ONE as int));
    }
}

/// A hit's parameter lies strictly inside the search interval.
pub proof fn lemma_sphere_hit_in_bounds(s: Sphere, ray: RayV, tmin: int, tmax: int)
    ensures
        sphere_hit_full(s, ray, tmin, tmax) matches Some(h) ==> tmin < h.part.t < tmax,
{
}

/// Tightening the upper bound past a hit's parameter does not change the hit.
pub proof fn lemma_sphere_hit_shrink(s: Sphere, ray: RayV, tmin: int, b1: int, b2: int)
    requires
        b2 <= b1,
        sphere_hit_full(s, ray, tmin, b1) is Some,
        sphere_hit_full(s, ray, tmin, b1)->Some_0.part.t < b2,
    ensures
        sphere_hit_full(s, ray, tmin, b2) == sphere_hit_full(s, ray, tmin, b1),
{
}

/// Loosening the upper bound keeps an existing hit: the smaller root is
/// tried first, so a hit found under a tight bound is found under any wider
/// one.
pub proof fn lemma_sphere_hit_grow(s: Sphere, ray: RayV, tmin: int, b1: int, b2: int)
    requires
        b2 <= b1,
        sphere_hit_full(s, ray, tmin, b2) is Some,
    ensures
        sphere_hit_full(s, ray, tmin, b1) == sphere_hit_full(s, ray, tmin, b2),
{
    let center = s.center@;
    let radius = s.radius as int;
    let oc = v3_sub(center, ray.orig);
    let a = v3_len_sq(ray.dir);
    let h = v3_dot(ray.dir, oc);
    let c = fx_sub_spec(v3_len_sq(oc), fx_mul_spec(radius, radius));
    let d = fx_sub_spec(fx_mul_spec(h, h), fx_mul_spec(a, c));
    let sq = sqrt_fx_spec(d);
    lemma_len_sq_nonneg(ray.dir);
    lemma_sqrt_fx_nonneg(d);
    crate::fx::lemma_fx_div_monotone(fx_sub_spec(h, sq), fx_add_spec(h, sq), a);
}

/// The scan returns the nearest hit: whatever it returns undercuts every
/// object's hit against the current bound; what it returns is the running
/// best or some object's own hit; and it only stays empty when it started
/// empty and no object hits.
#[verifier::rlimit(100)]
pub proof fn lemma_scan_nearest(
    objs: Seq<Sphere>,
    ray: RayV,
    tmin: int,
    bound: int,
    best: Option<HitFull>,
)
    requires
        best is Some ==> best->Some_0.part.t == bound,
    ensures
        ({
            let r = scan_spec(objs, ray, tmin, bound, best);
            &&& (forall|i: int|
                0 <= i < objs.len() && #[trigger] sphere_hit_full(objs[i], ray, tmin, bound)
                    is Some ==> r is Some && r->Some_0.part.t <= sphere_hit_full(
                    objs[i],
                    ray,
                    tmin,
                    bound,
                )->Some_0.part.t)
            &&& (r is Some ==> r == best || exists|i: int|
                0 <= i < objs.len() && #[trigger] sphere_hit_full(objs[i], ray, tmin, bound) == r)
            &&& (r is None ==> best is None)
            &&& (best is Some ==> r is Some && r->Some_0.part.t <= bound)
        }),
    decreases objs.len(),
{
    if objs.len() == 0 {
    } else {
        let e = objs[0];
        let rest = objs.drop_first();
        let r = scan_spec(objs, ray, tmin, bound, best);
        match sphere_hit_full(e, ray, tmin, bound) {
            Option::Some(h) => {
                lemma_sphere_hit_in_bounds(e, ray, tmin, bound);
                lemma_scan_nearest(rest, ray, tmin, h.part.t, Some(h));
                assert(r == scan_spec(rest, ray, tmin, h.part.t, Some(h)));
                assert(r is Some && r->Some_0.part.t <= h.part.t);
                assert forall|i: int|
                    0 <= i < objs.len() && #[trigger] sphere_hit_full(objs[i], ray, tmin, bound)
                        is Some implies r is Some && r->Some_0.part.t <= sphere_hit_full(
                    objs[i],
                    ray,
                    tmin,
                    bound,
                )->Some_0.part.t by {
                    if i > 0 {
                        let g = sphere_hit_full(objs[i], ray, tmin, bound)->Some_0;
                        assert(rest[i - 1] == objs[i]);
                        if g.part.t < h.part.t {
                            lemma_sphere_hit_shrink(objs[i], ray, tmin, bound, h.part.t);
                            assert(sphere_hit_full(rest[i - 1], ray, tmin, h.part.t) is Some);
                        }
                    }
                }
                if r != Some(h) {
                    let j = choose|j: int|
                        0 <= j < rest.len() && #[trigger] sphere_hit_full(
                            rest[j],
                            ray,
                            tmin,
                            h.part.t,
                        ) == r;
                    lemma_sphere_hit_grow(rest[j], ray, tmin, bound, h.part.t);
                    assert(sphere_hit_full(objs[j + 1], ray, tmin, bound) == r);
                } else {
                    assert(sphere_hit_full(objs[0], ray, tmin, bound) == r);
                }
            },
            Option::None => {
                lemma_scan_nearest(rest, ray, tmin, bound, best);
                assert(r == scan_spec(rest, ray, tmin, bound, best));
                assert forall|i: int|
                    0 <= i < objs.len() && #[trigger] sphere_hit_full(objs[i], ray, tmin, bound)
                        is Some implies r is Some && r->Some_0.part.t <= sphere_hit_full(
                    objs[i],
                    ray,
                    tmin,
                    bound,
                )->Some_0.part.t by {
                    if i > 0 {
                        assert(rest[i - 1] == objs[i]);
                        assert(sphere_hit_full(rest[i - 1], ray, tmin, bound) is Some);
                    }
                }
                if r is Some && r != best {
                    let j = choose|j: int|
                        0 <= j < rest.len() && #[trigger] sphere_hit_full(
                            rest[j],
                            ray,
                            tmin,
                            bound,
                        ) == r;
                    assert(sphere_hit_full(objs[j + 1], ray, tmin, bound) == r);
                }
            },
        }
    }
}

/// The scene's search returns the globally nearest hit: if it returns a hit,
/// some object produced it and no object hits strictly nearer; if it returns
/// none, no object hits at all.
pub proof fn lemma_list_hit_nearest(objs: Seq<Sphere>, ray: RayV, tmin: int, tmax: int)
    ensures
        ({
            let r = list_hit_spec(objs, ray, tmin, tmax);
            &&& (forall|i: int|
                0 <= i < objs.len() && #[trigger] sphere_hit_full(objs[i], ray, tmin, tmax)
                    is Some ==> r is Some && r->Some_0.part.t <= sphere_hit_full(
                    objs[i],
                    ray,
                    tmin,
                    tmax,
                )->Some_0.part.t)
            &&& (r is Some ==> exists|i: int|
                0 <= i < objs.len() && #[trigger] sphere_hit_full(objs[i], ray, tmin, tmax) == r)
            &&& (r is None ==> forall|i: int|
                0 <= i < objs.len() ==> #[trigger] sphere_hit_full(objs[i], ray, tmin, tmax)
                    is None)
        }),
{
    lemma_scan_nearest(objs, ray, tmin, tmax, None);
}

/// Two scenes holding the same spheres, in any insertion order, agree on
/// whether a ray hits and on the parameter of the nearest hit.
#[verifier::rlimit(100)]
pub proof fn lemma_list_hit_order_independent(
    objs1: Seq<Sphere>,
    objs2: Seq<Sphere>,
    ray: RayV,
    tmin: int,
    tmax: int,
)
    requires
        objs1.to_multiset() == objs2.to_multiset(),
    ensures
        ({
            let r1 = list_hit_spec(objs1, ray, tmin, tmax);
            let r2 = list_hit_spec(objs2, ray, tmin, tmax);
            &&& (r1 is Some <==> r2 is Some)
            &&& (r1 is Some && r2 is Some ==> r1->Some_0.part.t == r2->Some_0.part.t)
        }),
{
    broadcast use vstd::seq_lib::group_to_multiset_ensures;

    lemma_list_hit_nearest(objs1, ray, tmin, tmax);
    lemma_list_hit_nearest(objs2, ray, tmin, tmax);
    let r1 = list_hit_spec(objs1, ray, tmin, tmax);
    let r2 = list_hit_spec(objs2, ray, tmin, tmax);
    if r1 is Some {
        let i = choose|i: int|
            0 <= i < objs1.len() && #[trigger] sphere_hit_full(objs1[i], ray, tmin, tmax) == r1;
        assert(objs1.contains(objs1[i]));
        assert(objs1.to_multiset().count(objs1[i]) > 0);
        assert(objs2.to_multiset().count(objs1[i]) > 0);
        assert(objs2.contains(objs1[i]));
        let j = choose|j: int| 0 <= j < objs2.len() && objs2[j] == objs1[i];
        assert(sphere_hit_full(objs2[j], ray, tmin, tmax) == r1);
        assert(r2 is Some && r2->Some_0.part.t <= r1->Some_0.part.t);
    }
    if r2 is Some {
        let i = choose|i: int|
            0 <= i < objs2.len() && #[trigger] sphere_hit_full(objs2[i], ray, tmin, tmax) == r2;
        assert(objs2.contains(objs2[i]));
        assert(objs2.to_multiset().count(objs2[i]) > 0);
        assert(objs1.to_multiset().count(objs2[i]) > 0);
        assert(objs1.contains(objs2[i]));
        let j = choose|j: int| 0 <= j < objs1.len() && objs1[j] == objs2[i];
        assert(sphere_hit_full(objs1[j], ray, tmin, tmax) == r2);
        assert(r1 is Some && r1->Some_0.part.t <= r2->Some_0.part.t);
    }
}

pub struct HittableList {
    pub objects: Vec<Sphere>,
}

impl HittableList {
    pub fn new() -> (r: HittableList)
        ensures
            r.objects@.len() == 0,
    {
        HittableList { objects: Vec::new() }
    }

    pub fn add(&mut self, object: Sphere)
        ensures
            final(self).objects@ == old(self).objects@.push(object),
    {
        self.objects.push(object);
    }

    pub fn clear(&mut self)
        ensures
            final(self).objects@.len() == 0,
    {
        self.objects.clear();
    }

    /// The nearest intersection along the ray inside the open interval, found
    /// by the scan with its strictly shrinking upper bound.
    pub fn hit(&self, ray: &Ray, ray_t: &Interval) -> (r: Option<HitRecord>)
        ensures
            rec_full(r) == list_hit_spec(self.objects@, ray@, ray_t.min as int, ray_t.max as int),
    {
        let ghost tmin = ray_t.min as int;
        let ghost tmax = ray_t.max as int;
        let mut closest_so_far = ray_t.max();
        let mut hit_record: Option<HitRecord> = None;
        let mut interval = Interval::new(ray_t.min(), closest_so_far);
        let n = self.objects.len();
        let mut i: usize = 0;
        proof {
            assert(self.objects@.skip(0) =~= self.objects@);
        }
        while i < n
            invariant
                n == self.objects@.len(),
                0 <= i <= n,
                interval.min as int == tmin,
                scan_spec(
                    self.objects@.skip(i as int),
                    ray@,
                    tmin,
                    closest_so_far as int,
                    rec_full(hit_record),
                ) == list_hit_spec(self.objects@, ray@, tmin, tmax),
            decreases n - i,
        {
            interval.set_max(closest_so_far);
            let ghost pre = self.objects@.skip(i as int);
            let res = self.objects[i].hit(ray, &interval);
            proof {
                assert(pre[0] == self.objects@[i as int]);
                assert(pre.drop_first() =~= self.objects@.skip(i as int + 1));
            }
            if let Some(hit) = res {
                closest_so_far = hit.t();
                hit_record = Some(hit);
            }
            i = i + 1;
        }
        hit_record
    }
}

} // verus!
