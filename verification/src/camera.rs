//! Camera geometry derived from a configuration, per-pixel ray sampling and
//! the recursive light-transport integrator. The derived geometry is pinned
//! exactly to a spec-level mirror; the random parts of sampling are
//! characterized for every draw.
use crate::buffer::{pix, Buffer};
use crate::color::{color_spec, Color};
use crate::fx::{
    fx_add, fx_add_spec, fx_div, fx_div_spec, fx_mul, fx_mul_spec, fx_sub, fx_sub_spec, FX_MAX,
    FX_ONE,
};
use crate::hittable::{list_hit_spec, HitFull, HittableList, Sphere};
use crate::materials::{scatter_absorbs, scatter_admissible};
use crate::math::{
    deg2rad_spec, degrees_to_radians, fx_tan, rand, tan_spec, v3_add, v3_cross, v3_divs,
    v3_len_sq, v3_mul_each, v3_scale, v3_sub, v3_unit, vec3_rand_in_unit_disk, Interval, Point3,
    Ray, RayV, Vector3, V3,
};
use vstd::prelude::*;

verus! {

/// Least positive ray parameter accepted by the integrator; it discards
/// self-intersections at the surface the ray leaves.
pub const RAY_T_MIN: i64 = 66;

/// Half of one, as a fixed-point scalar.
pub const FX_HALF: i64 = 32768;

pub struct CameraConfig {
    pub image_width: u32,
    pub image_height: u32,
    pub aspect_ratio: i64,
    pub samples_per_pixel: u32,
    pub max_ray_depth: i32,
    pub light_intensity: i64,
    pub sky_color: Color,
    pub fov: i64,
    pub look_from: Point3,
    pub look_at: Point3,
    pub defocus_angle: i64,
    pub focus_dist: i64,
}

pub struct Camera {
    pub image_width: u32,
    pub image_height: u32,
    pub center: Point3,
    pub zz_point: Point3,
    pub pixel_delta_u: Vector3,
    pub pixel_delta_v: Vector3,
    pub samples_per_pixel: u32,
    pub pixel_samples_scale: i64,
    pub max_ray_depth: i32,
    pub light_intensity: i64,
    pub sky_color: Color,
    pub defocus_angle: i64,
    pub defocus_disk_u: Vector3,
    pub defocus_disk_v: Vector3,
}

/// Mathematical view of the derived camera.
pub struct CameraV {
    pub image_width: int,
    pub image_height: int,
    pub center: V3,
    pub zz_point: V3,
    pub pixel_delta_u: V3,
    pub pixel_delta_v: V3,
    pub samples_per_pixel: int,
    pub pixel_samples_scale: int,
    pub max_ray_depth: int,
    pub light_intensity: int,
    pub sky_color: V3,
    pub defocus_angle: int,
    pub defocus_disk_u: V3,
    pub defocus_disk_v: V3,
}

impl View for Camera {
    type V = CameraV;

    open spec fn view(&self) -> CameraV {
        CameraV {
            image_width: self.image_width as int,
            image_height: self.image_height as int,
            center: self.center@,
            zz_point: self.zz_point@,
            pixel_delta_u: self.pixel_delta_u@,
            pixel_delta_v: self.pixel_delta_v@,
            samples_per_pixel: self.samples_per_pixel as int,
            pixel_samples_scale: self.pixel_samples_scale as int,
            max_ray_depth: self.max_ray_depth as int,
            light_intensity: self.light_intensity as int,
            sky_color: self.sky_color@,
            defocus_angle: self.defocus_angle as int,
            defocus_disk_u: self.defocus_disk_u@,
            defocus_disk_v: self.defocus_disk_v@,
        }
    }
}

/// The world's up direction.
pub open spec fn spec_vup() -> V3 {
    V3 { x: 0, y: FX_ONE as int, z: 0 }
}

/// The camera geometry derived from a configuration: orthonormal-ish basis
/// from view direction and up, viewport extents from the field of view and
/// focus distance, per-pixel deltas, the anchor of the first pixel, and the
/// defocus disk scaled by the lens angle.
pub open spec fn camera_spec(config: CameraConfig) -> CameraV {
    let theta = deg2rad_spec(config.fov as int);
    let h = tan_spec(fx_div_spec(theta, 2 * FX_ONE as int));
    let viewport_height = fx_mul_spec(fx_mul_spec(2 * FX_ONE as int, h), config.focus_dist as int);
    let viewport_width = fx_mul_spec(viewport_height, config.aspect_ratio as int);
    let center = config.look_from@;
    let w = v3_unit(v3_sub(config.look_from@, config.look_at@));
    let u = v3_unit(v3_cross(spec_vup(), w));
    let v = v3_cross(u, w);
    let viewport_u = v3_scale(u, viewport_width);
    let viewport_v = v3_scale(v, viewport_height);
    let pixel_delta_u = v3_divs(viewport_u, config.image_width as int * FX_ONE as int);
    let pixel_delta_v = v3_divs(viewport_v, config.image_height as int * FX_ONE as int);
    let viewport_upper_left = v3_sub(
        v3_sub(
            v3_sub(center, v3_scale(w, config.focus_dist as int)),
            v3_divs(viewport_u, 2 * FX_ONE as int),
        ),
        v3_divs(viewport_v, 2 * FX_ONE as int),
    );
    let zz_point = v3_add(
        viewport_upper_left,
        v3_scale(v3_add(pixel_delta_u, pixel_delta_v), FX_HALF as int),
    );
    let defocus_radius = fx_mul_spec(
        config.focus_dist as int,
        tan_spec(deg2rad_spec(fx_div_spec(config.defocus_angle as int, 2 * FX_ONE as int))),
    );
    CameraV {
        image_width: config.image_width as int,
        image_height: config.image_height as int,
        center,
        zz_point,
        pixel_delta_u,
        pixel_delta_v,
        samples_per_pixel: config.samples_per_pixel as int,
        pixel_samples_scale: fx_div_spec(
            FX_ONE as int,
            config.samples_per_pixel as int * FX_ONE as int,
        ),
        max_ray_depth: config.max_ray_depth as int,
        light_intensity: config.light_intensity as int,
        sky_color: config.sky_color@,
        defocus_angle: config.defocus_angle as int,
        defocus_disk_u: v3_scale(u, defocus_radius),
        defocus_disk_v: v3_scale(v, defocus_radius),
    }
}

/// The point on the viewport that the sample at pixel `(x, y)` with jitter
/// `(ox, oy)` aims at.
pub open spec fn pixel_sample_spec(cam: CameraV, x: int, y: int, ox: int, oy: int) -> V3 {
    v3_add(
        v3_add(cam.zz_point, v3_scale(cam.pixel_delta_u, fx_add_spec(x * FX_ONE as int, ox))),
        v3_scale(cam.pixel_delta_v, fx_add_spec(y * FX_ONE as int, oy)),
    )
}

/// The background: a vertical gradient from white to the configured sky
/// color, driven by the normalized ray direction's height.
pub open spec fn sky_spec(cam: CameraV, ray: RayV) -> V3 {
    let unit = v3_unit(ray.dir);
    let a = fx_mul_spec(fx_add_spec(unit.y, FX_ONE as int), FX_HALF as int);
    v3_add(
        v3_scale(V3 { x: FX_ONE as int, y: FX_ONE as int, z: FX_ONE as int }, fx_sub_spec(FX_ONE as int, a)),
        v3_scale(cam.sky_color, a),
    )
}

/// Black, as a color.
pub open spec fn spec_black() -> V3 {
    V3 { x: 0, y: 0, z: 0 }
}

/// The pixel is the packed, gamma-corrected image of some linear color: it
/// carries full alpha and channels that came out of the quantizer.
pub open spec fn is_rendered_pixel(p: u32) -> bool {
    exists|v: V3| p as int == #[trigger] color_spec(v)
}

/// The origin lies on the camera's open lens disk: the center displaced along
/// the two defocus basis vectors by a point of the open unit disk.
pub open spec fn on_lens_disk(cam: CameraV, orig: V3) -> bool {
    exists|px: int, py: int|
        v3_len_sq(V3 { x: px, y: py, z: 0 }) < FX_ONE && orig == v3_add(
            v3_add(cam.center, #[trigger] v3_scale(cam.defocus_disk_u, px)),
            #[trigger] v3_scale(cam.defocus_disk_v, py),
        )
}

/// A primary ray the camera may cast for pixel `(x, y)`: aimed at the pixel's
/// target jittered within half a pixel, from the camera center, or from the
/// lens disk when depth-of-field is on.
pub open spec fn ray_admissible(cam: CameraV, x: int, y: int, ray: RayV) -> bool {
    &&& if cam.defocus_angle <= 0 {
        ray.orig == cam.center
    } else {
        on_lens_disk(cam, ray.orig)
    }
    &&& exists|ox: int, oy: int|
        -FX_HALF <= ox < FX_HALF && -FX_HALF <= oy < FX_HALF && ray.dir == v3_sub(
            #[trigger] pixel_sample_spec(cam, x, y, ox, oy),
            ray.orig,
        )
}

/// A color the integrator may return for this ray at this depth, for some
/// sequence of generator draws: black once the budget is spent; the exact sky
/// gradient on a miss; on a hit, black when the material absorbs, else an
/// admissible scattered color, attenuated componentwise and scaled by the
/// light intensity.
pub open spec fn ray_color_admissible(
    cam: CameraV,
    objs: Seq<Sphere>,
    ray: RayV,
    depth: int,
    c: V3,
) -> bool
    decreases depth + 1, 1int,
{
    if depth < 0 {
        c == spec_black()
    } else {
        match list_hit_spec(objs, ray, RAY_T_MIN as int, FX_MAX as int) {
            Option::None => c == sky_spec(cam, ray),
            Option::Some(h) => (scatter_absorbs(h.mat, ray, h.part.normal) && c == spec_black())
                || ray_color_hit_step(cam, objs, ray, h, depth, c),
        }
    }
}

/// One admissible bounce at hit `h`: the material scatters to an admissible
/// pair, the scattered ray carries back an admissible color one depth lower,
/// and the result is that color attenuated and scaled by the light intensity.
pub open spec fn ray_color_hit_step(
    cam: CameraV,
    objs: Seq<Sphere>,
    ray: RayV,
    h: HitFull,
    depth: int,
    c: V3,
) -> bool
    decreases depth + 1, 0int,
{
    if depth < 0 {
        false
    } else {
        exists|att: V3, dir: V3, c2: V3|
            {
                &&& #[trigger] scatter_admissible(
                    h.mat,
                    ray,
                    h.part.normal,
                    h.part.front_face,
                    att,
                    dir,
                )
                &&& ray_color_admissible(
                    cam,
                    objs,
                    RayV { orig: h.part.p, dir: dir },
                    depth - 1,
                    c2,
                )
                &&& c == v3_scale(#[trigger] v3_mul_each(att, c2), cam.light_intensity)
            }
    }
}

/// The running sum of the first `n` per-pixel samples: each sample is an
/// admissible color of an admissible primary ray at full depth budget.
pub open spec fn sample_sum_admissible(
    cam: CameraV,
    objs: Seq<Sphere>,
    x: int,
    y: int,
    n: int,
    acc: V3,
) -> bool
    decreases n,
{
    if n <= 0 {
        acc == spec_black()
    } else {
        exists|prev: V3, ray: RayV, c: V3|
            {
                &&& sample_sum_admissible(cam, objs, x, y, n - 1, prev)
                &&& ray_admissible(cam, x, y, ray)
                &&& #[trigger] ray_color_admissible(cam, objs, ray, cam.max_ray_depth, c)
                &&& acc == #[trigger] v3_add(prev, c)
            }
    }
}

/// The pixel at `(x, y)` packs the average of the configured number of
/// admissible ray samples for that pixel.
pub open spec fn pixel_admissible(cam: CameraV, objs: Seq<Sphere>, x: int, y: int, p: u32) -> bool {
    exists|acc: V3|
        #[trigger] sample_sum_admissible(cam, objs, x, y, cam.samples_per_pixel, acc) && p as int
            == color_spec(v3_scale(acc, cam.pixel_samples_scale))
}

impl Camera {
    /// Derive the rendering camera from a configuration.
    pub fn new(config: &CameraConfig) -> (r: Camera)
        requires
            config.image_width >= 1,
            config.image_height >= 1,
            config.aspect_ratio > 0,
            config.samples_per_pixel >= 1,
            config.max_ray_depth >= 0,
            config.light_intensity >= 0,
            0 < config.fov < FX_ONE as int * 180,
            config.look_from != config.look_at,
            config.focus_dist > 0,
        ensures
            r@ == camera_spec(*config),
    {
        let theta = degrees_to_radians(config.fov);
        let h = fx_tan(fx_div(theta, 2 * FX_ONE));
        let viewport_height = fx_mul(fx_mul(2 * FX_ONE, h), config.focus_dist);
        let viewport_width = fx_mul(viewport_height, config.aspect_ratio);
        let center = config.look_from;
        let vup = Vector3::new(0, FX_ONE, 0);
        let w = config.look_from.sub(&config.look_at).normalize();
        let u = vup.cross(&w).normalize();
        let v = u.cross(&w);
        let viewport_u = u.scale(viewport_width);
        let viewport_v = v.scale(viewport_height);
        let pixel_delta_u = viewport_u.divs((config.image_width as i64) * FX_ONE);
        let pixel_delta_v = viewport_v.divs((config.image_height as i64) * FX_ONE);
        let viewport_upper_left = center.sub(&w.scale(config.focus_dist)).sub(
            &viewport_u.divs(2 * FX_ONE),
        ).sub(&viewport_v.divs(2 * FX_ONE));
        let zz_point = viewport_upper_left.add(&pixel_delta_u.add(&pixel_delta_v).scale(FX_HALF));
        let defocus_radius = fx_mul(
            config.focus_dist,
            fx_tan(degrees_to_radians(fx_div(config.defocus_angle, 2 * FX_ONE))),
        );
        let defocus_disk_u = u.scale(defocus_radius);
        let defocus_disk_v = v.scale(defocus_radius);
        Camera {
            image_width: config.image_width,
            image_height: config.image_height,
            center,
            zz_point,
            pixel_delta_u,
            pixel_delta_v,
            samples_per_pixel: config.samples_per_pixel,
            pixel_samples_scale: fx_div(FX_ONE, (config.samples_per_pixel as i64) * FX_ONE),
            max_ray_depth: config.max_ray_depth,
            light_intensity: config.light_intensity,
            sky_color: config.sky_color,
            defocus_angle: config.defocus_angle,
            defocus_disk_u,
            defocus_disk_v,
        }
    }

    /// Render the scene into the buffer: for every pixel, average the colors
    /// of the configured number of jittered ray samples, then store the
    /// gamma-corrected pixel. Every pixel of the buffer is written and packs
    /// the average of that many admissible ray-sample colors for its own
    /// coordinates, fully opaque.
    pub fn render(
        &self,
        bf: &mut Buffer,
        world: &HittableList,
        rng: &mut rand_xoshiro::Xoshiro256Plus,
    )
        requires
            old(bf).wf(),
            old(bf).width == self.image_width,
            old(bf).height == self.image_height,
        ensures
            final(bf).wf(),
            final(bf).width == old(bf).width && final(bf).height == old(bf).height,
            forall|k: int|
                0 <= k < final(bf).buffer@.len() ==> #[trigger] final(bf).buffer@[k]
                    >= 0xff00_0000u32 && is_rendered_pixel(final(bf).buffer@[k]),
            forall|i: int, j: int|
                0 <= i < self.image_width && 0 <= j < self.image_height ==> pixel_admissible(
                    self@,
                    world.objects@,
                    i,
                    j,
                    #[trigger] pix(final(bf).buffer@, self.image_width as int, i, j),
                ),
    {
        let w = self.image_width as usize;
        let hgt = self.image_height as usize;
        let ghost wi = w as int;
        let mut y: usize = 0;
        while y < hgt
            invariant
                bf.wf(),
                bf.width == old(bf).width && bf.height == old(bf).height,
                bf.width == wi,
                bf.height == hgt as int,
                w == wi,
                w == self.image_width as usize,
                hgt == self.image_height as usize,
                0 <= y <= hgt,
                forall|k: int|
                    0 <= k < y * wi ==> #[trigger] bf.buffer@[k] >= 0xff00_0000u32
                        && is_rendered_pixel(bf.buffer@[k]),
                forall|a: int, b: int|
                    (0 <= a < wi && 0 <= b < y) ==> pixel_admissible(
                        self@,
                        world.objects@,
                        a,
                        b,
                        #[trigger] pix(bf.buffer@, wi, a, b),
                    ),
            decreases hgt - y,
        {
            let mut x: usize = 0;
            proof {
                assert(y as int * wi + wi <= wi * (hgt as int)) by (nonlinear_arith)
                    requires
                        0 <= y as int,
                        (y as int) < (hgt as int),
                        wi >= 0,
                ;
            }
            while x < w
                invariant
                    bf.wf(),
                    bf.width == old(bf).width && bf.height == old(bf).height,
                    bf.width == wi,
                    bf.height == hgt as int,
                    w == wi,
                    w == self.image_width as usize,
                    hgt == self.image_height as usize,
                    0 <= y < hgt,
                    0 <= x <= w,
                    y * wi + x <= bf.buffer@.len(),
                    forall|k: int|
                        0 <= k < y * wi + x ==> #[trigger] bf.buffer@[k] >= 0xff00_0000u32
                            && is_rendered_pixel(bf.buffer@[k]),
                    forall|a: int, b: int|
                        (0 <= a < wi && 0 <= b < hgt as int && (b < y || (b == y && a < x)))
                            ==> pixel_admissible(
                            self@,
                            world.objects@,
                            a,
                            b,
                            #[trigger] pix(bf.buffer@, wi, a, b),
                        ),
                decreases w - x,
            {
                let mut pixel_color = Vector3::new(0, 0, 0);
                let mut s: u32 = 0;
                proof {
                    assert(sample_sum_admissible(
                        self@,
                        world.objects@,
                        x as int,
                        y as int,
                        0,
                        pixel_color@,
                    ));
                }
                while s < self.samples_per_pixel
                    invariant
                        0 <= s <= self.samples_per_pixel,
                        x < self.image_width,
                        y < self.image_height,
                        sample_sum_admissible(
                            self@,
                            world.objects@,
                            x as int,
                            y as int,
                            s as int,
                            pixel_color@,
                        ),
                    decreases self.samples_per_pixel - s,
                {
                    let r = self.get_ray(x, y, rng);
                    let c = self.ray_color(&r, self.max_ray_depth, world, rng);
                    let ghost prev = pixel_color@;
                    pixel_color = pixel_color.add(&c);
                    proof {
                        assert(ray_admissible(self@, x as int, y as int, r@));
                        assert(ray_color_admissible(
                            self@,
                            world.objects@,
                            r@,
                            self@.max_ray_depth,
                            c@,
                        ));
                        assert(pixel_color@ == v3_add(prev, c@));
                        assert(sample_sum_admissible(
                            self@,
                            world.objects@,
                            x as int,
                            y as int,
                            s as int + 1,
                            pixel_color@,
                        ));
                    }
                    s = s + 1;
                }
                let averaged = pixel_color.scale(self.pixel_samples_scale);
                let ghost before = bf.buffer@;
                bf.set_color(x, y, &averaged);
                proof {
                    assert(y as int * wi + wi <= wi * (hgt as int)) by (nonlinear_arith)
                        requires
                            0 <= y as int,
                            (y as int) < (hgt as int),
                            wi >= 0,
                    ;
                    assert(bf.buffer@ == before.update(y * wi + x, (color_spec(averaged@) as u32)));
                    assert(bf.buffer@[y * wi + x] >= 0xff00_0000u32);
                    assert(bf.buffer@[y * wi + x] as int == color_spec(averaged@));
                    assert(is_rendered_pixel(bf.buffer@[y * wi + x]));
                    assert(sample_sum_admissible(
                        self@,
                        world.objects@,
                        x as int,
                        y as int,
                        self@.samples_per_pixel,
                        pixel_color@,
                    ));
                    assert(averaged@ == v3_scale(pixel_color@, self@.pixel_samples_scale));
                    assert(pixel_admissible(
                        self@,
                        world.objects@,
                        x as int,
                        y as int,
                        bf.buffer@[y * wi + x],
                    ));
                    assert forall|k: int| 0 <= k < y * wi + x + 1 implies #[trigger] bf.buffer@[k]
                        >= 0xff00_0000u32 && is_rendered_pixel(bf.buffer@[k]) by {
                        assert(0 <= y * wi + x < bf.buffer@.len());
                        if k < y * wi + x {
                            assert(bf.buffer@[k] == before[k]);
                        }
                    }
                    assert forall|a: int, b: int|
                        (0 <= a < wi && 0 <= b < hgt as int && (b < y || (b == y && a < x + 1)))
                            implies pixel_admissible(
                        self@,
                        world.objects@,
                        a,
                        b,
                        #[trigger] pix(bf.buffer@, wi, a, b),
                    ) by {
                        crate::buffer::lemma_row_major_index(wi, hgt as int, a, b);
                        crate::buffer::lemma_row_major_distinct(
                            wi,
                            hgt as int,
                            x as int,
                            y as int,
                            a,
                            b,
                        );
                        if a == x && b == y {
                            assert(pix(bf.buffer@, wi, a, b) == bf.buffer@[y * wi + x]);
                        } else {
                            assert(pix(bf.buffer@, wi, a, b) == pix(before, wi, a, b));
                        }
                    }
                }
                x = x + 1;
            }
            proof {
                assert((y + 1) * wi == y * wi + wi) by (nonlinear_arith);
            }
            y = y + 1;
        }
    }

    /// One jittered ray for pixel `(x, y)`: aimed at the pixel's sample
    /// point; from the camera center, or from the defocus disk when
    /// depth-of-field is on.
    pub fn get_ray(&self, x: usize, y: usize, rng: &mut rand_xoshiro::Xoshiro256Plus) -> (r: Ray)
        requires
            x < self.image_width,
            y < self.image_height,
        ensures
            self.defocus_angle <= 0 ==> r.orig == self.center,
            self.defocus_angle > 0 ==> on_lens_disk(self@, r.orig@),
            exists|ox: int, oy: int|
                -FX_HALF <= ox < FX_HALF && -FX_HALF <= oy < FX_HALF && r.dir@ == v3_sub(
                    pixel_sample_spec(self@, x as int, y as int, ox, oy),
                    r.orig@,
                ),
            ray_admissible(self@, x as int, y as int, r@),
    {
        let offset = self.sample_square(rng);
        let pixel_sample = self.zz_point.add(
            &self.pixel_delta_u.scale(fx_add((x as i64) * FX_ONE, offset.x)),
        ).add(&self.pixel_delta_v.scale(fx_add((y as i64) * FX_ONE, offset.y)));
        let ray_orig = if self.defocus_angle <= 0 {
            self.center
        } else {
            self.defocus_disk_sample(rng)
        };
        let dir = pixel_sample.sub(&ray_orig);
        let r = Ray::new(ray_orig, dir);
        proof {
            let ox = offset.x as int;
            let oy = offset.y as int;
            assert(-FX_HALF <= ox < FX_HALF && -FX_HALF <= oy < FX_HALF && r.dir@ == v3_sub(
                #[trigger] pixel_sample_spec(self@, x as int, y as int, ox, oy),
                r.orig@,
            ));
            assert(ray_admissible(self@, x as int, y as int, r@));
        }
        r
    }

    /// The color carried back along a ray: black once the depth budget is
    /// spent; on a hit, the scattered color attenuated and scaled by the
    /// light intensity, or black when the material absorbs; on a miss,
    /// exactly the sky gradient. The result is always an admissible outcome
    /// of that rule for some sequence of generator draws. Each nested call
    /// strictly shrinks the depth budget, so a call at depth `d` evaluates at
    /// most `d + 1` rays deep.
    pub fn ray_color(
        &self,
        ray: &Ray,
        depth: i32,
        world: &HittableList,
        rng: &mut rand_xoshiro::Xoshiro256Plus,
    ) -> (r: Color)
        ensures
            depth < 0 ==> r@ == spec_black(),
            (depth >= 0 && list_hit_spec(
                world.objects@,
                ray@,
                RAY_T_MIN as int,
                FX_MAX as int,
            ) is None) ==> r@ == sky_spec(self@, ray@),
            ray_color_admissible(self@, world.objects@, ray@, depth as int, r@),
        decreases depth + 1,
    {
        if depth < 0 {
            return Vector3::new(0, 0, 0);
        }
        let interval = Interval::new(RAY_T_MIN, FX_MAX);
        if let Some(hit) = world.hit(ray, &interval) {
            let ghost h = list_hit_spec(
                world.objects@,
                ray@,
                RAY_T_MIN as int,
                FX_MAX as int,
            )->Some_0;
            proof {
                assert(hit.mat == h.mat && hit.normal@ == h.part.normal && hit.front_face
                    == h.part.front_face && hit.p@ == h.part.p);
            }
            if let Some((cl, scattered)) = hit.mat().scatter(ray, &hit, rng) {
                let c2 = self.ray_color(&scattered, depth - 1, world, rng);
                let color = cl.mul_each(&c2);
                let result = color.scale(self.light_intensity);
                proof {
                    assert(scatter_admissible(
                        h.mat,
                        ray@,
                        h.part.normal,
                        h.part.front_face,
                        cl@,
                        scattered.dir@,
                    ));
                    assert(scattered@ == (RayV { orig: h.part.p, dir: scattered.dir@ }));
                    assert(ray_color_admissible(
                        self@,
                        world.objects@,
                        RayV { orig: h.part.p, dir: scattered.dir@ },
                        depth as int - 1,
                        c2@,
                    ));
                    assert(result@ == v3_scale(v3_mul_each(cl@, c2@), self@.light_intensity));
                    assert(list_hit_spec(world.objects@, ray@, RAY_T_MIN as int, FX_MAX as int)
                        == Some(h));
                    assert(ray_color_hit_step(
                        self@,
                        world.objects@,
                        ray@,
                        h,
                        depth as int,
                        result@,
                    ));
                    assert(ray_color_admissible(self@, world.objects@, ray@, depth as int, result@));
                }
                return result;
            }
            let black = Vector3::new(0, 0, 0);
            proof {
                assert(scatter_absorbs(h.mat, ray@, h.part.normal));
                assert(ray_color_admissible(self@, world.objects@, ray@, depth as int, black@));
            }
            return black;
        }
        let unit = ray.dir().normalize();
        let a = fx_mul(fx_add(unit.y, FX_ONE), FX_HALF);
        Vector3::new(FX_ONE, FX_ONE, FX_ONE).scale(fx_sub(FX_ONE, a)).add(
            &self.sky_color.scale(a),
        )
    }

    /// A jitter uniform in `[-1/2, 1/2)` for both viewport axes.
    fn sample_square(&self, rng: &mut rand_xoshiro::Xoshiro256Plus) -> (r: Vector3)
        ensures
            -FX_HALF <= r.x < FX_HALF,
            -FX_HALF <= r.y < FX_HALF,
            r.z == 0,
    {
        Vector3::new(fx_sub(rand(rng), FX_HALF), fx_sub(rand(rng), FX_HALF), 0)
    }

    /// A ray origin on the open lens disk.
    fn defocus_disk_sample(&self, rng: &mut rand_xoshiro::Xoshiro256Plus) -> (r: Point3)
        ensures
            on_lens_disk(self@, r@),
    {
        let p = vec3_rand_in_unit_disk(rng);
        let r = self.center.add(&self.defocus_disk_u.scale(p.x)).add(
            &self.defocus_disk_v.scale(p.y),
        );
        proof {
            let px = p.x as int;
            let py = p.y as int;
            assert(p@ == (V3 { x: px, y: py, z: 0 }));
            assert(v3_len_sq(V3 { x: px, y: py, z: 0 }) < FX_ONE);
            assert(r@ == v3_add(
                v3_add(self@.center, #[trigger] v3_scale(self@.defocus_disk_u, px)),
                #[trigger] v3_scale(self@.defocus_disk_v, py),
            ));
            assert(on_lens_disk(self@, r@));
        }
        r
    }
}

} // verus!
