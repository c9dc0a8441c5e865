//! Camera, integrator and render driver.
//!
//! The camera derives its viewport state once at construction
//! ([`Camera::new`] mirrors every derived field exactly in
//! [`spec_camera`]); [`ray_color`] is the recursive light-transport
//! integrator with its depth-termination law stated in its contract; the
//! render drivers iterate pixels in row-major order, averaging samples and
//! tone-mapping.
use vstd::prelude::*;
use crate::vec3::{Vec3, dot3, spec_normalize, lemma_dot3_bound, lemma_dot3_bound_div,
    lemma_prod_bound2};
use crate::ray::Ray;
use crate::color::{Color, write_color, color_to_rgb, dec_bytes, triple_line_bytes};
use crate::fixed::{SCALE, fdiv, fmul, fquot, fclamp, fx_mul, fx_div, fx_divint, fx_clamp,
    lemma_fmul_range, lemma_fmul_unit, lemma_fdiv_bound, lemma_fdiv_mag};
use crate::hittable::{wf_ray, ORIGIN_LIMIT, DIR_LIMIT, T_LIMIT};
use crate::hittable_list::HittableList;
use crate::approx::{tan_half_deg, spec_tan_half_deg};
use crate::rng::Rng;
use vstd::arithmetic::mul::{lemma_mul_nonnegative, lemma_mul_inequality};
use vstd::arithmetic::div_mod::{lemma_div_pos_is_pos, lemma_fundamental_div_mod};

verus! {

/// The shadow-acne guard: lower end of every scene intersection interval
/// (about `0.001` at this resolution).
pub const T_ACNE: i64 = 66;

#[derive(Debug, Clone, Copy, PartialEq, Eq, Structural)]
pub struct ImageSettings {
    pub image_width: usize,
    pub aspect_ratio: i64,
}

#[derive(Debug, Clone, Copy, PartialEq, Eq, Structural)]
pub struct QualitySettings {
    pub samples_per_pixel: usize,
    pub max_depth: usize,
}

#[derive(Debug, Clone, Copy, PartialEq, Eq, Structural)]
pub struct CameraSettings {
    pub vfov: i64,
    pub focus_dist: i64,
    pub defocus_angle: i64,
    pub camera_center: Vec3,
    pub camera_lookat: Vec3,
    pub camera_vup: Vec3,
}

#[derive(Debug, Clone)]
pub struct Camera {
    pub image_width: usize,
    pub image_height: usize,
    pub camera_center: Vec3,
    pub pixel_delta_u: Vec3,
    pub pixel_delta_v: Vec3,
    pub pixel00_loc: Vec3,
    pub samples_per_pixel: usize,
    pub max_depth: usize,
    pub defocus_angle: i64,
    pub defocus_disk_u: Vec3,
    pub defocus_disk_v: Vec3,
}

/// Componentwise difference, in spec.
pub open spec fn diff3(a: Vec3, b: Vec3) -> Vec3 {
    Vec3 { x: (a.x - b.x) as i64, y: (a.y - b.y) as i64, z: (a.z - b.z) as i64 }
}

/// Componentwise sum, in spec.
pub open spec fn sum3(a: Vec3, b: Vec3) -> Vec3 {
    Vec3 { x: (a.x + b.x) as i64, y: (a.y + b.y) as i64, z: (a.z + b.z) as i64 }
}

/// The cross product, in spec, mirroring [`Vec3::cross`].
pub open spec fn cross3(a: Vec3, b: Vec3) -> Vec3 {
    Vec3 {
        x: (fmul(a.y as int, b.z as int) - fmul(a.z as int, b.y as int)) as i64,
        y: (fmul(a.z as int, b.x as int) - fmul(a.x as int, b.z as int)) as i64,
        z: (fmul(a.x as int, b.y as int) - fmul(a.y as int, b.x as int)) as i64,
    }
}

/// Componentwise fixed-point scaling, in spec.
pub open spec fn scale3(v: Vec3, k: int) -> Vec3 {
    Vec3 {
        x: fmul(v.x as int, k) as i64,
        y: fmul(v.y as int, k) as i64,
        z: fmul(v.z as int, k) as i64,
    }
}

/// Componentwise floor division by a positive integer, in spec.
pub open spec fn divint3(v: Vec3, d: int) -> Vec3 {
    Vec3 {
        x: fdiv(v.x as int, d) as i64,
        y: fdiv(v.y as int, d) as i64,
        z: fdiv(v.z as int, d) as i64,
    }
}

/// The viewport state [`Camera::new`] derives: image height from width and
/// aspect ratio (clamped into a machine range); viewport extent from field
/// of view and focus distance; the orthonormal-ish camera basis from center,
/// look-at and up; per-pixel deltas; the location of pixel `(0, 0)`; and the
/// defocus disk.
pub open spec fn spec_camera(
    image_settings: ImageSettings,
    quality_settings: QualitySettings,
    camera_settings: CameraSettings,
) -> Camera {
    let width = image_settings.image_width as int;
    let wfx = width * SCALE as int;
    let h0 = fdiv(fquot(wfx, image_settings.aspect_ratio as int), SCALE as int);
    let height = fclamp(h0, 1, 8192);
    let hfx = height * SCALE as int;
    let ratio = fclamp(fquot(wfx, hfx), 0, 8 * SCALE as int);
    let tanv = spec_tan_half_deg(camera_settings.vfov as int);
    let vh = fmul(2 * camera_settings.focus_dist as int, tanv);
    let vw = fmul(vh, ratio);
    let w3 = spec_normalize(diff3(camera_settings.camera_center,
        camera_settings.camera_lookat));
    let u3 = spec_normalize(cross3(camera_settings.camera_vup, w3));
    let v3 = cross3(w3, u3);
    let viewport_u = scale3(u3, vw);
    let viewport_v = scale3(v3, -vh);
    let du = divint3(viewport_u, width);
    let dv = divint3(viewport_v, height);
    let upper_left = diff3(diff3(diff3(camera_settings.camera_center, scale3(w3,
        camera_settings.focus_dist as int)), divint3(viewport_u, 2)), divint3(viewport_v, 2));
    let pixel00 = sum3(upper_left, divint3(sum3(du, dv), 2));
    let defocus_radius = if camera_settings.defocus_angle > 0 {
        fmul(spec_tan_half_deg(camera_settings.defocus_angle as int),
            camera_settings.focus_dist as int)
    } else {
        0
    };
    Camera {
        image_width: image_settings.image_width,
        image_height: height as usize,
        camera_center: camera_settings.camera_center,
        pixel_delta_u: du,
        pixel_delta_v: dv,
        pixel00_loc: pixel00,
        samples_per_pixel: quality_settings.samples_per_pixel,
        max_depth: quality_settings.max_depth,
        defocus_angle: camera_settings.defocus_angle,
        defocus_disk_u: scale3(u3, defocus_radius),
        defocus_disk_v: scale3(v3, defocus_radius),
    }
}

/// Runtime test of every condition [`Camera::new`] requires, for callers
/// outside the verifier.
pub fn settings_valid(
    image_settings: ImageSettings,
    quality_settings: QualitySettings,
    camera_settings: CameraSettings,
) -> (r: bool)
    ensures
        r == ({
            &&& 1 <= image_settings.image_width <= 4096
            &&& SCALE / 2 <= image_settings.aspect_ratio <= 16 * SCALE
            &&& 0 < camera_settings.vfov <= 120 * SCALE
            &&& 1 <= camera_settings.focus_dist <= 0x20_0000
            &&& 0 <= camera_settings.defocus_angle <= 120 * SCALE
            &&& camera_settings.camera_center.in_range(0x100_0000)
            &&& camera_settings.camera_lookat.in_range(0x100_0000)
            &&& camera_settings.camera_vup.in_range(2 * SCALE as int)
            &&& 1 <= quality_settings.samples_per_pixel <= 65536
            &&& ({
                let d = diff3(camera_settings.camera_center, camera_settings.camera_lookat);
                dot3(d, d) >= 1
            })
            &&& ({
                let w3 = spec_normalize(diff3(camera_settings.camera_center,
                    camera_settings.camera_lookat));
                let cr = cross3(camera_settings.camera_vup, w3);
                dot3(cr, cr) >= 1
            })
        }),
{
    if !(1 <= image_settings.image_width && image_settings.image_width <= 4096) {
        return false;
    }
    if !(SCALE / 2 <= image_settings.aspect_ratio && image_settings.aspect_ratio <= 16
        * SCALE) {
        return false;
    }
    if !(0 < camera_settings.vfov && camera_settings.vfov <= 120 * SCALE) {
        return false;
    }
    if !(1 <= camera_settings.focus_dist && camera_settings.focus_dist <= 0x20_0000) {
        return false;
    }
    if !(0 <= camera_settings.defocus_angle && camera_settings.defocus_angle <= 120 * SCALE) {
        return false;
    }
    if !camera_settings.camera_center.in_range_exec(0x100_0000) {
        return false;
    }
    if !camera_settings.camera_lookat.in_range_exec(0x100_0000) {
        return false;
    }
    if !camera_settings.camera_vup.in_range_exec(2 * SCALE) {
        return false;
    }
    if !(1 <= quality_settings.samples_per_pixel && quality_settings.samples_per_pixel
        <= 65536) {
        return false;
    }
    let d: Vec3 = camera_settings.camera_center.sub(camera_settings.camera_lookat);
    proof {
        lemma_dot3_bound(d, d, 0x200_0000, 0x200_0000);
    }
    let nsq: i64 = d.norm_squared();
    if nsq < 1 {
        return false;
    }
    let w3: Vec3 = d.normalize();
    let crossv: Vec3 = camera_settings.camera_vup.cross(w3);
    proof {
        lemma_cross_bound(camera_settings.camera_vup, w3, 2 * SCALE as int, 2 * SCALE as int,
            4 * SCALE as int);
        lemma_dot3_bound(crossv, crossv, 8 * SCALE as int, 8 * SCALE as int);
    }
    let cnsq: i64 = crossv.norm_squared();
    cnsq >= 1
}

impl Camera {
    /// The bounds the constructor establishes and ray generation relies on.
    pub open spec fn wf(self) -> bool {
        &&& 1 <= self.image_width <= 4096
        &&& 1 <= self.image_height <= 8192
        &&& self.camera_center.in_range(0x100_0000)
        &&& self.pixel00_loc.in_range(0x1000_0000)
        &&& -0x802_0000 <= self.image_width * self.pixel_delta_u.x <= 0x802_0000
        &&& -0x802_0000 <= self.image_width * self.pixel_delta_u.y <= 0x802_0000
        &&& -0x802_0000 <= self.image_width * self.pixel_delta_u.z <= 0x802_0000
        &&& -0x802_0000 <= self.image_height * self.pixel_delta_v.x <= 0x802_0000
        &&& -0x802_0000 <= self.image_height * self.pixel_delta_v.y <= 0x802_0000
        &&& -0x802_0000 <= self.image_height * self.pixel_delta_v.z <= 0x802_0000
        &&& self.defocus_disk_u.in_range(0x80_0000)
        &&& self.defocus_disk_v.in_range(0x200_0000)
        &&& 1 <= self.samples_per_pixel <= 65536
    }

    /// Derive the camera's viewport state; the result equals [`spec_camera`]
    /// exactly and satisfies the bounds ray generation needs.
    #[verifier::rlimit(100)]
    pub fn new(
        image_settings: ImageSettings,
        quality_settings: QualitySettings,
        camera_settings: CameraSettings,
    ) -> (r: Camera)
        requires
            1 <= image_settings.image_width <= 4096,
            SCALE / 2 <= image_settings.aspect_ratio <= 16 * SCALE,
            0 < camera_settings.vfov <= 120 * SCALE,
            1 <= camera_settings.focus_dist <= 0x20_0000,
            0 <= camera_settings.defocus_angle <= 120 * SCALE,
            camera_settings.camera_center.in_range(0x100_0000),
            camera_settings.camera_lookat.in_range(0x100_0000),
            camera_settings.camera_vup.in_range(2 * SCALE as int),
            1 <= quality_settings.samples_per_pixel <= 65536,
            ({
                let d = diff3(camera_settings.camera_center, camera_settings.camera_lookat);
                dot3(d, d) >= 1
            }),
            ({
                let w3 = spec_normalize(diff3(camera_settings.camera_center,
                    camera_settings.camera_lookat));
                let cr = cross3(camera_settings.camera_vup, w3);
                dot3(cr, cr) >= 1
            }),
        ensures
            r == spec_camera(image_settings, quality_settings, camera_settings),
            r.wf(),
    {
        let image_width: usize = image_settings.image_width;
        let wfx: i64 = (image_width as i64) * SCALE;
        proof {
            lemma_prod_bound2(wfx as int, SCALE as int, 0x1000_0000, 0x10000);
            lemma_fdiv_mag(wfx as int * SCALE as int, image_settings.aspect_ratio as int,
                0x1000_0000int * 0x10000int);
        }
        let h0: i64 = fx_divint(fx_div(wfx, image_settings.aspect_ratio), SCALE);
        proof {
            lemma_fdiv_mag(fquot(wfx as int, image_settings.aspect_ratio as int),
                SCALE as int, 0x1000_0000int * 0x10000int);
        }
        let image_height_i: i64 = fx_clamp(h0, 1, 8192);
        let image_height: usize = image_height_i as usize;
        let hfx: i64 = image_height_i * SCALE;
        proof {
            lemma_prod_bound2(wfx as int, SCALE as int, 0x1000_0000, 0x10000);
            lemma_fdiv_mag(wfx as int * SCALE as int, hfx as int,
                0x1000_0000int * 0x10000int);
        }
        let ratio: i64 = fx_clamp(fx_div(wfx, hfx), 0, 8 * SCALE);
        let tanv: i64 = tan_half_deg(camera_settings.vfov);
        proof {
            lemma_fmul_range(2 * camera_settings.focus_dist as int, tanv as int, 0x40_0000,
                0x2_0000, 0x80_0000);
        }
        let vh: i64 = fx_mul(2 * camera_settings.focus_dist, tanv);
        proof {
            lemma_fmul_range(vh as int, ratio as int, 0x80_0000, 0x8_0000, 0x400_0000);
        }
        let vw: i64 = fx_mul(vh, ratio);
        let w3: Vec3 = camera_settings.camera_center.sub(camera_settings.camera_lookat)
            .normalize();
        let crossv: Vec3 = camera_settings.camera_vup.cross(w3);
        proof {
            lemma_cross_bound(camera_settings.camera_vup, w3, 2 * SCALE as int,
                2 * SCALE as int, 4 * SCALE as int);
        }
        let u3: Vec3 = crossv.normalize();
        proof {
            lemma_cross_bound(w3, u3, 2 * SCALE as int, 2 * SCALE as int, 4 * SCALE as int);
        }
        let v3: Vec3 = w3.cross(u3);
        proof {
            lemma_scale_bound(u3, vw as int, 2 * SCALE as int, 0x400_0000, 0x800_0000);
            lemma_scale_bound(v3, -(vh as int), 8 * SCALE as int, 0x80_0000, 0x400_0000);
            lemma_scale_bound(w3, camera_settings.focus_dist as int, 2 * SCALE as int,
                0x20_0000, 0x40_0000);
        }
        let viewport_u: Vec3 = u3.scale(vw);
        let viewport_v: Vec3 = v3.scale(-vh);
        proof {
            lemma_divint3_bounds(viewport_u, image_width as int, 0x800_0000);
            lemma_divint3_bounds(viewport_v, image_height as int, 0x400_0000);
            lemma_fdiv_bound(viewport_u.x as int, 2, 0x400_0000);
            lemma_fdiv_bound(viewport_u.y as int, 2, 0x400_0000);
            lemma_fdiv_bound(viewport_u.z as int, 2, 0x400_0000);
            lemma_fdiv_bound(viewport_v.x as int, 2, 0x200_0000);
            lemma_fdiv_bound(viewport_v.y as int, 2, 0x200_0000);
            lemma_fdiv_bound(viewport_v.z as int, 2, 0x200_0000);
        }
        let pixel_delta_u: Vec3 = divint3_exec(viewport_u, image_width as i64);
        let pixel_delta_v: Vec3 = divint3_exec(viewport_v, image_height_i);
        let fdw: Vec3 = w3.scale(camera_settings.focus_dist);
        let half_vu: Vec3 = divint3_exec(viewport_u, 2);
        let half_vv: Vec3 = divint3_exec(viewport_v, 2);
        let upper_left: Vec3 = camera_settings.camera_center.sub(fdw).sub(half_vu).sub(
            half_vv,
        );
        proof {
            lemma_fdiv_bound(pixel_delta_u.x as int + pixel_delta_v.x as int, 2, 0x600_0000);
            lemma_fdiv_bound(pixel_delta_u.y as int + pixel_delta_v.y as int, 2, 0x600_0000);
            lemma_fdiv_bound(pixel_delta_u.z as int + pixel_delta_v.z as int, 2, 0x600_0000);
        }
        let half_delta: Vec3 = divint3_exec(pixel_delta_u.add(pixel_delta_v), 2);
        let pixel00_loc: Vec3 = upper_left.add(half_delta);
        let defocus_radius: i64 = if camera_settings.defocus_angle > 0 {
            let t: i64 = tan_half_deg(camera_settings.defocus_angle);
            proof {
                lemma_fmul_range(t as int, camera_settings.focus_dist as int, 0x2_0000,
                    0x20_0000, 0x40_0000);
            }
            fx_mul(t, camera_settings.focus_dist)
        } else {
            0
        };
        proof {
            lemma_scale_bound(u3, defocus_radius as int, 2 * SCALE as int, 0x40_0000,
                0x80_0000);
            lemma_scale_bound(v3, defocus_radius as int, 8 * SCALE as int, 0x40_0000,
                0x200_0000);
        }
        let defocus_disk_u: Vec3 = u3.scale(defocus_radius);
        let defocus_disk_v: Vec3 = v3.scale(defocus_radius);
        proof {
            lemma_fundamental_div_mod(viewport_u.x as int, image_width as int);
            lemma_fundamental_div_mod(viewport_u.y as int, image_width as int);
            lemma_fundamental_div_mod(viewport_u.z as int, image_width as int);
            lemma_fundamental_div_mod(viewport_v.x as int, image_height as int);
            lemma_fundamental_div_mod(viewport_v.y as int, image_height as int);
            lemma_fundamental_div_mod(viewport_v.z as int, image_height as int);
            vstd::arithmetic::div_mod::lemma_mod_division_less_than_divisor(
                viewport_u.x as int, image_width as int);
            vstd::arithmetic::div_mod::lemma_mod_division_less_than_divisor(
                viewport_u.y as int, image_width as int);
            vstd::arithmetic::div_mod::lemma_mod_division_less_than_divisor(
                viewport_u.z as int, image_width as int);
            vstd::arithmetic::div_mod::lemma_mod_division_less_than_divisor(
                viewport_v.x as int, image_height as int);
            vstd::arithmetic::div_mod::lemma_mod_division_less_than_divisor(
                viewport_v.y as int, image_height as int);
            vstd::arithmetic::div_mod::lemma_mod_division_less_than_divisor(
                viewport_v.z as int, image_height as int);
        }
        Camera {
            image_width,
            image_height,
            camera_center: camera_settings.camera_center,
            pixel_delta_u,
            pixel_delta_v,
            pixel00_loc,
            samples_per_pixel: quality_settings.samples_per_pixel,
            max_depth: quality_settings.max_depth,
            defocus_angle: camera_settings.defocus_angle,
            defocus_disk_u,
            defocus_disk_v,
        }
    }

    /// The jittered target point of one pixel sample on the focus plane.
    fn sample_point(&self, x: usize, y: usize, ox: i64, oy: i64) -> (p: Vec3)
        requires
            self.wf(),
            x < self.image_width,
            y < self.image_height,
            -SCALE / 2 <= ox < SCALE / 2,
            -SCALE / 2 <= oy < SCALE / 2,
        ensures
            p == sum3(
                sum3(self.pixel00_loc, scale3(self.pixel_delta_u, x * SCALE as int + ox)),
                scale3(self.pixel_delta_v, y * SCALE as int + oy),
            ),
            p.in_range(0x2010_0000),
    {
        let tx: i64 = (x as i64) * SCALE + ox;
        let ty: i64 = (y as i64) * SCALE + oy;
        proof {
            lemma_sample_term(tx as int, self.pixel_delta_u.x as int,
                self.image_width as int, 0x802_0000);
            lemma_sample_term(tx as int, self.pixel_delta_u.y as int,
                self.image_width as int, 0x802_0000);
            lemma_sample_term(tx as int, self.pixel_delta_u.z as int,
                self.image_width as int, 0x802_0000);
            lemma_sample_term(ty as int, self.pixel_delta_v.x as int,
                self.image_height as int, 0x802_0000);
            lemma_sample_term(ty as int, self.pixel_delta_v.y as int,
                self.image_height as int, 0x802_0000);
            lemma_sample_term(ty as int, self.pixel_delta_v.z as int,
                self.image_height as int, 0x802_0000);
        }
        let step_u: Vec3 = self.pixel_delta_u.scale(tx);
        let step_v: Vec3 = self.pixel_delta_v.scale(ty);
        self.pixel00_loc.add(step_u).add(step_v)
    }

    /// The ray origin of one sample: the camera center, or a point on the
    /// defocus disk when the camera has a lens aperture.
    fn lens_origin(&self, lens: Vec3) -> (o: Vec3)
        requires
            self.wf(),
            lens.in_range(SCALE as int),
        ensures
            o == if self.defocus_angle > 0 {
                sum3(
                    sum3(self.camera_center, scale3(self.defocus_disk_u, lens.x as int)),
                    scale3(self.defocus_disk_v, lens.y as int),
                )
            } else {
                self.camera_center
            },
            o.in_range(0x400_0000),
    {
        if self.defocus_angle > 0 {
            proof {
                lemma_scale_bound(self.defocus_disk_u, lens.x as int, 0x80_0000, SCALE as int,
                    0x80_0000);
                lemma_scale_bound(self.defocus_disk_v, lens.y as int, 0x200_0000,
                    SCALE as int, 0x200_0000);
            }
            self.camera_center.add(self.defocus_disk_u.scale(lens.x)).add(
                self.defocus_disk_v.scale(lens.y),
            )
        } else {
            self.camera_center
        }
    }

    /// One sample ray through pixel `(x, y)`: the pixel center jittered
    /// within the pixel, aimed from the camera center or, with a defocus
    /// disk, from a sampled point on the lens; the result and the generator
    /// state left behind are exactly [`spec_get_ray_rng`] of the entry
    /// state.
    fn get_ray(&self, x: usize, y: usize, rng: &mut Rng) -> (r: Ray)
        requires
            self.wf(),
            x < self.image_width,
            y < self.image_height,
        ensures
            wf_ray(r),
            r == spec_get_ray_rng(*self, x as int, y as int, old(rng)@).0,
            final(rng)@ == spec_get_ray_rng(*self, x as int, y as int, old(rng)@).1,
            exists|ox: i64, oy: i64, lens: Vec3|
                -SCALE / 2 <= ox < SCALE / 2 && -SCALE / 2 <= oy < SCALE / 2 && lens.z == 0
                    && dot3(lens, lens) <= SCALE && lens.in_range(SCALE as int) && r
                    == spec_get_ray(*self, x as int, y as int, ox, oy, lens),
    {
        let offset_x: i64 = rng.next_offset();
        let offset_y: i64 = rng.next_offset();
        let sample_center: Vec3 = self.sample_point(x, y, offset_x, offset_y);
        let lens: Vec3 = crate::random_vec3_in_unit_disk(rng);
        let origin: Vec3 = self.lens_origin(lens);
        let dir: Vec3 = sample_center.sub(origin);
        let r: Ray = Ray::new(origin, dir);
        proof {
            assert(dir == diff3(sample_center, origin));
            assert(r == spec_get_ray(*self, x as int, y as int, offset_x, offset_y, lens));
        }
        r
    }

    /// Average `samples_per_pixel` independent integrator samples through
    /// pixel `(x, y)`: the result and the generator state left behind are
    /// exactly [`spec_render_pixel`] of the entry state, and every channel
    /// lies in `[0, 1]`.
    fn render_pixel(&self, x: usize, y: usize, world: &HittableList, rng: &mut Rng) -> (c:
        Color)
        requires
            self.wf(),
            world.wf(),
            x < self.image_width,
            y < self.image_height,
        ensures
            c == spec_render_pixel(*self, x as int, y as int, *world, old(rng)@).0,
            final(rng)@ == spec_render_pixel(*self, x as int, y as int, *world, old(rng)@).1,
            0 <= c.x <= SCALE,
            0 <= c.y <= SCALE,
            0 <= c.z <= SCALE,
    {
        let ghost s0: u64 = rng@;
        let n: usize = self.samples_per_pixel;
        let mut sx: i64 = 0;
        let mut sy: i64 = 0;
        let mut sz: i64 = 0;
        let mut s: usize = 0;
        while s < n
            invariant
                0 <= s <= n,
                n <= 65536,
                n == self.samples_per_pixel,
                self.wf(),
                world.wf(),
                x < self.image_width,
                y < self.image_height,
                0 <= sx <= s * SCALE,
                0 <= sy <= s * SCALE,
                0 <= sz <= s * SCALE,
                ({
                    let rest = spec_sample_sum(*self, x as int, y as int, *world, rng@, (n
                        - s) as nat);
                    let whole = spec_sample_sum(*self, x as int, y as int, *world, s0,
                        n as nat);
                    sx + rest.0.0 == whole.0.0 && sy + rest.0.1 == whole.0.1 && sz + rest.0.2
                        == whole.0.2 && rest.1 == whole.1
                }),
            decreases n - s,
        {
            let ghost s_it: u64 = rng@;
            let ray: Ray = self.get_ray(x, y, rng);
            let c: Color = ray_color(&ray, world, self.max_depth, rng);
            proof {
                lemma_mul_inequality(s as int + 1, 65536, SCALE as int);
                assert(spec_sample_sum(*self, x as int, y as int, *world, s_it, (n - s) as nat)
                    == ({
                    let rest = spec_sample_sum(*self, x as int, y as int, *world, rng@, (n - s
                        - 1) as nat);
                    ((c.x + rest.0.0, c.y + rest.0.1, c.z + rest.0.2), rest.1)
                }));
            }
            sx = sx + c.x;
            sy = sy + c.y;
            sz = sz + c.z;
            s = s + 1;
        }
        proof {
            lemma_avg_bound(sx as int, n as int);
            lemma_avg_bound(sy as int, n as int);
            lemma_avg_bound(sz as int, n as int);
        }
        Vec3 {
            x: fx_divint(sx, n as i64),
            y: fx_divint(sy, n as i64),
            z: fx_divint(sz, n as i64),
        }
    }

    /// Stream the image as a textual pixel map: a header with the format
    /// tag, the dimensions and the maximum channel value, then exactly the
    /// `width * height` tone-mapped triples of [`spec_image_lines`], one
    /// line each, in row-major order (top row first, left to right), all
    /// pinned to the scene and the generator's entry state.
    pub fn render(&self, file: &mut Vec<u8>, world: &HittableList, rng: &mut Rng)
        requires
            self.wf(),
            world.wf(),
        ensures
            final(file)@ == old(file)@ + spec_ppm_header(
                self.image_width as int,
                self.image_height as int,
            ) + spec_image_lines(*self, *world, 0, old(rng)@).0,
            final(rng)@ == spec_image_lines(*self, *world, 0, old(rng)@).1,
    {
        let ghost s0: u64 = rng@;
        let w: usize = self.image_width;
        let h: usize = self.image_height;
        file.push(80);
        file.push(51);
        file.push(10);
        push_decimal_small(file, w as u64);
        file.push(32);
        push_decimal_small(file, h as u64);
        file.push(10);
        file.push(50);
        file.push(53);
        file.push(53);
        file.push(10);
        let ghost header_end: Seq<u8> = file@;
        proof {
            assert(file@ =~= old(file)@ + spec_ppm_header(w as int, h as int));
        }
        let ghost whole: Seq<u8> = spec_image_lines(*self, *world, 0, s0).0;
        let ghost mut pix: Seq<u8> = Seq::empty();
        proof {
            assert(pix + spec_image_lines(*self, *world, 0, rng@).0 =~= whole);
        }
        let mut y: usize = 0;
        while y < h
            invariant
                0 <= y <= h,
                w == self.image_width,
                h == self.image_height,
                self.wf(),
                world.wf(),
                file@ == header_end + pix,
                pix + spec_image_lines(*self, *world, y as int, rng@).0 == whole,
                spec_image_lines(*self, *world, y as int, rng@).1 == spec_image_lines(
                    *self,
                    *world,
                    0,
                    s0,
                ).1,
            decreases h - y,
        {
            let ghost s_row: u64 = rng@;
            let ghost pix_row: Seq<u8> = pix;
            let mut x: usize = 0;
            while x < w
                invariant
                    0 <= x <= w,
                    0 <= y < h,
                    w == self.image_width,
                    h == self.image_height,
                    self.wf(),
                    world.wf(),
                    file@ == header_end + pix,
                    pix + spec_row_lines(*self, *world, y as int, x as int, rng@).0 == pix_row
                        + spec_row_lines(*self, *world, y as int, 0, s_row).0,
                    spec_row_lines(*self, *world, y as int, x as int, rng@).1
                        == spec_row_lines(*self, *world, y as int, 0, s_row).1,
                decreases w - x,
            {
                let ghost s_px: u64 = rng@;
                let c: Color = self.render_pixel(x, y, world, rng);
                write_color(file, c);
                proof {
                    let line = triple_line_bytes(
                        crate::color::spec_channel(c.x as int),
                        crate::color::spec_channel(c.y as int),
                        crate::color::spec_channel(c.z as int),
                    );
                    assert(spec_row_lines(*self, *world, y as int, x as int, s_px) == (
                        line + spec_row_lines(*self, *world, y as int, x as int + 1, rng@).0,
                        spec_row_lines(*self, *world, y as int, x as int + 1, rng@).1,
                    ));
                    assert((pix + line) + spec_row_lines(*self, *world, y as int, x as int
                        + 1, rng@).0 =~= pix + (line + spec_row_lines(*self, *world,
                        y as int, x as int + 1, rng@).0));
                    pix = pix + line;
                    assert(file@ =~= header_end + pix);
                }
                x = x + 1;
            }
            proof {
                assert(spec_row_lines(*self, *world, y as int, w as int, rng@).0
                    =~= Seq::<u8>::empty());
                assert(pix =~= pix_row + spec_row_lines(*self, *world, y as int, 0, s_row).0);
                assert(spec_image_lines(*self, *world, y as int, s_row) == (
                    spec_row_lines(*self, *world, y as int, 0, s_row).0 + spec_image_lines(
                        *self,
                        *world,
                        y as int + 1,
                        rng@,
                    ).0,
                    spec_image_lines(*self, *world, y as int + 1, rng@).1,
                ));
                assert(pix + spec_image_lines(*self, *world, y as int + 1, rng@).0
                    =~= pix_row + (spec_row_lines(*self, *world, y as int, 0, s_row).0
                    + spec_image_lines(*self, *world, y as int + 1, rng@).0));
            }
            y = y + 1;
        }
        proof {
            assert(spec_image_lines(*self, *world, h as int, rng@).0 =~= Seq::<u8>::empty());
            assert(pix =~= whole);
            assert(final(file)@ =~= old(file)@ + spec_ppm_header(w as int, h as int) + whole);
        }
    }

    /// Render into a dense row-major RGB8 framebuffer: exactly the
    /// `3 * width * height` tone-mapped bytes of [`spec_image_bytes`],
    /// pixel `(x, y)` at offset `3 * (y * width + x)`, pinned to the scene
    /// and the generator's entry state.
    pub fn render_to_imgbuf(&self, world: &HittableList, rng: &mut Rng) -> (buf: Vec<u8>)
        requires
            self.wf(),
            world.wf(),
        ensures
            buf@ == spec_image_bytes(*self, *world, 0, old(rng)@).0,
            final(rng)@ == spec_image_bytes(*self, *world, 0, old(rng)@).1,
            buf@.len() == 3 * self.image_width * self.image_height,
    {
        let ghost s0: u64 = rng@;
        let ghost whole: Seq<u8> = spec_image_bytes(*self, *world, 0, s0).0;
        let w: usize = self.image_width;
        let h: usize = self.image_height;
        let mut buf: Vec<u8> = Vec::new();
        proof {
            assert(buf@ + spec_image_bytes(*self, *world, 0, rng@).0 =~= whole);
        }
        let mut y: usize = 0;
        while y < h
            invariant
                0 <= y <= h,
                w == self.image_width,
                h == self.image_height,
                w <= 4096,
                h <= 8192,
                self.wf(),
                world.wf(),
                buf@.len() == 3 * y * w,
                buf@ + spec_image_bytes(*self, *world, y as int, rng@).0 == whole,
                spec_image_bytes(*self, *world, y as int, rng@).1 == spec_image_bytes(
                    *self,
                    *world,
                    0,
                    s0,
                ).1,
            decreases h - y,
        {
            let ghost s_row: u64 = rng@;
            let ghost buf_row: Seq<u8> = buf@;
            let mut x: usize = 0;
            while x < w
                invariant
                    0 <= x <= w,
                    0 <= y < h,
                    w == self.image_width,
                    h == self.image_height,
                    w <= 4096,
                    h <= 8192,
                    self.wf(),
                    world.wf(),
                    buf@.len() == 3 * y * w + 3 * x,
                    buf@ + spec_row_bytes(*self, *world, y as int, x as int, rng@).0 == buf_row
                        + spec_row_bytes(*self, *world, y as int, 0, s_row).0,
                    spec_row_bytes(*self, *world, y as int, x as int, rng@).1
                        == spec_row_bytes(*self, *world, y as int, 0, s_row).1,
                decreases w - x,
            {
                let ghost s_px: u64 = rng@;
                let c: Color = self.render_pixel(x, y, world, rng);
                let (r, g, b): (u8, u8, u8) = color_to_rgb(c);
                proof {
                    lemma_mul_inequality(y as int + 1, 8192int, 12288int);
                    assert(3 * (y + 1) * w == 3 * y * w + 3 * w) by (nonlinear_arith);
                    assert(3 * y * w <= 3 * 8192 * 4096) by (nonlinear_arith)
                        requires
                            0 <= y as int && (y as int) < 8192 && 0 <= w as int && (
                            w as int) <= 4096;
                    let px = seq![
                        crate::color::spec_channel(c.x as int) as u8,
                        crate::color::spec_channel(c.y as int) as u8,
                        crate::color::spec_channel(c.z as int) as u8,
                    ];
                    assert(spec_row_bytes(*self, *world, y as int, x as int, s_px) == (
                        px + spec_row_bytes(*self, *world, y as int, x as int + 1, rng@).0,
                        spec_row_bytes(*self, *world, y as int, x as int + 1, rng@).1,
                    ));
                    assert(px == seq![r, g, b]);
                }
                buf.push(r);
                buf.push(g);
                buf.push(b);
                proof {
                    assert(buf@ + spec_row_bytes(*self, *world, y as int, x as int + 1,
                        rng@).0 =~= buf_row + spec_row_bytes(*self, *world, y as int, 0,
                        s_row).0);
                }
                x = x + 1;
            }
            proof {
                assert(3 * (y + 1) * w == 3 * y * w + 3 * w) by (nonlinear_arith);
                assert(spec_row_bytes(*self, *world, y as int, w as int, rng@).0
                    =~= Seq::<u8>::empty());
                assert(buf@ =~= buf_row + spec_row_bytes(*self, *world, y as int, 0,
                    s_row).0);
                assert(spec_image_bytes(*self, *world, y as int, s_row) == (
                    spec_row_bytes(*self, *world, y as int, 0, s_row).0 + spec_image_bytes(
                        *self,
                        *world,
                        y as int + 1,
                        rng@,
                    ).0,
                    spec_image_bytes(*self, *world, y as int + 1, rng@).1,
                ));
                assert(buf@ + spec_image_bytes(*self, *world, y as int + 1, rng@).0
                    =~= buf_row + (spec_row_bytes(*self, *world, y as int, 0, s_row).0
                    + spec_image_bytes(*self, *world, y as int + 1, rng@).0));
            }
            y = y + 1;
        }
        proof {
            assert(3 * h * w == 3 * w * h) by (nonlinear_arith);
            assert(spec_image_bytes(*self, *world, h as int, rng@).0 =~= Seq::<u8>::empty());
            assert(buf@ =~= whole);
        }
        buf
    }
}

/// The sample ray determined by the jitter offsets and the lens sample.
pub open spec fn spec_get_ray(cam: Camera, x: int, y: int, ox: i64, oy: i64, lens: Vec3)
    -> Ray {
    let tx = x * SCALE as int + ox;
    let ty = y * SCALE as int + oy;
    let sample_center = sum3(sum3(cam.pixel00_loc, scale3(cam.pixel_delta_u, tx)), scale3(
        cam.pixel_delta_v,
        ty,
    ));
    let origin = if cam.defocus_angle > 0 {
        sum3(sum3(cam.camera_center, scale3(cam.defocus_disk_u, lens.x as int)), scale3(
            cam.defocus_disk_v,
            lens.y as int,
        ))
    } else {
        cam.camera_center
    };
    Ray { orig: origin, dir: diff3(sample_center, origin) }
}

/// The sample ray and the generator state it leaves: two jitter offsets,
/// then the lens draw.
pub open spec fn spec_get_ray_rng(cam: Camera, x: int, y: int, s: u64) -> (Ray, u64) {
    let s1 = crate::rng::next_state(s);
    let ox = crate::rng::unit_draw(s1) - 32768;
    let s2 = crate::rng::next_state(s1);
    let oy = crate::rng::unit_draw(s2) - 32768;
    let d = crate::spec_disk_vec3(s2);
    (spec_get_ray(cam, x, y, ox as i64, oy as i64, d.0), d.1)
}

/// The channel-wise sum of `n` integrator samples through pixel `(x, y)`,
/// and the generator state it leaves.
pub open spec fn spec_sample_sum(
    cam: Camera,
    x: int,
    y: int,
    world: HittableList,
    s: u64,
    n: nat,
) -> ((int, int, int), u64)
    decreases n,
{
    if n == 0 {
        ((0int, 0int, 0int), s)
    } else {
        let rs = spec_get_ray_rng(cam, x, y, s);
        let cs = spec_ray_color(rs.0, world, cam.max_depth as nat, rs.1);
        let rest = spec_sample_sum(cam, x, y, world, cs.1, (n - 1) as nat);
        ((cs.0.x + rest.0.0, cs.0.y + rest.0.1, cs.0.z + rest.0.2), rest.1)
    }
}

/// The averaged color of one pixel and the generator state it leaves.
pub open spec fn spec_render_pixel(cam: Camera, x: int, y: int, world: HittableList, s: u64)
    -> (Color, u64) {
    let sum = spec_sample_sum(cam, x, y, world, s, cam.samples_per_pixel as nat);
    (
        Vec3 {
            x: fdiv(sum.0.0, cam.samples_per_pixel as int) as i64,
            y: fdiv(sum.0.1, cam.samples_per_pixel as int) as i64,
            z: fdiv(sum.0.2, cam.samples_per_pixel as int) as i64,
        },
        sum.1,
    )
}

/// The text lines of one pixel row from column `x` on, with the generator
/// state left after the row's remaining pixels.
pub open spec fn spec_row_lines(cam: Camera, world: HittableList, y: int, x: int, s: u64) -> (
    Seq<u8>,
    u64,
)
    decreases cam.image_width as int - x,
{
    if x < 0 || x >= cam.image_width {
        (Seq::<u8>::empty(), s)
    } else {
        let ps = spec_render_pixel(cam, x, y, world, s);
        let line = triple_line_bytes(
            crate::color::spec_channel(ps.0.x as int),
            crate::color::spec_channel(ps.0.y as int),
            crate::color::spec_channel(ps.0.z as int),
        );
        let rest = spec_row_lines(cam, world, y, x + 1, ps.1);
        (line + rest.0, rest.1)
    }
}

/// The text lines of all pixel rows from `y` down, top row first, left to
/// right, with the generator state left at the end: the meaning of
/// [`Camera::render`]'s pixel section.
pub open spec fn spec_image_lines(cam: Camera, world: HittableList, y: int, s: u64) -> (
    Seq<u8>,
    u64,
)
    decreases cam.image_height as int - y,
{
    if y < 0 || y >= cam.image_height {
        (Seq::<u8>::empty(), s)
    } else {
        let row = spec_row_lines(cam, world, y, 0, s);
        let rest = spec_image_lines(cam, world, y + 1, row.1);
        (row.0 + rest.0, rest.1)
    }
}

/// The three tone-mapped bytes of one pixel row from column `x` on, with
/// the generator state left after the row's remaining pixels.
pub open spec fn spec_row_bytes(cam: Camera, world: HittableList, y: int, x: int, s: u64) -> (
    Seq<u8>,
    u64,
)
    decreases cam.image_width as int - x,
{
    if x < 0 || x >= cam.image_width {
        (Seq::<u8>::empty(), s)
    } else {
        let ps = spec_render_pixel(cam, x, y, world, s);
        let px = seq![
            crate::color::spec_channel(ps.0.x as int) as u8,
            crate::color::spec_channel(ps.0.y as int) as u8,
            crate::color::spec_channel(ps.0.z as int) as u8,
        ];
        let rest = spec_row_bytes(cam, world, y, x + 1, ps.1);
        (px + rest.0, rest.1)
    }
}

/// The RGB8 bytes of all pixel rows from `y` down, row-major, with the
/// generator state left at the end: the meaning of
/// [`Camera::render_to_imgbuf`]'s framebuffer.
pub open spec fn spec_image_bytes(cam: Camera, world: HittableList, y: int, s: u64) -> (
    Seq<u8>,
    u64,
)
    decreases cam.image_height as int - y,
{
    if y < 0 || y >= cam.image_height {
        (Seq::<u8>::empty(), s)
    } else {
        let row = spec_row_bytes(cam, world, y, 0, s);
        let rest = spec_image_bytes(cam, world, y + 1, row.1);
        (row.0 + rest.0, rest.1)
    }
}

/// The sky background: a vertical gradient from white to light blue, as a
/// function of the normalized direction's vertical component (clamped into
/// the unit interval as a machine bound, inert for unit directions).
pub open spec fn spec_background(unit_dir: Vec3) -> Color {
    let tt = fclamp(fdiv(unit_dir.y + SCALE as int, 2), 0, SCALE as int);
    Vec3 {
        x: ((SCALE as int - tt) + fmul(tt, 32768)) as i64,
        y: ((SCALE as int - tt) + fmul(tt, 45875)) as i64,
        z: ((SCALE as int - tt) + fmul(tt, 65536)) as i64,
    }
}

/// What [`ray_color`] returns and the generator state it leaves, as an
/// exact function of ray, scene, recursion budget and entry state: black on
/// an exhausted budget or a degenerate direction; the background gradient
/// on a miss; on a hit, the material's scatter decides, and a scattered ray
/// contributes its own color attenuated component-wise — each bounce can
/// only attenuate.
pub open spec fn spec_ray_color(ray: Ray, world: HittableList, depth: nat, s: u64) -> (
    Color,
    u64,
)
    decreases depth,
{
    if depth == 0 {
        (Vec3 { x: 0i64, y: 0i64, z: 0i64 }, s)
    } else if dot3(ray.dir, ray.dir) < 1 {
        (Vec3 { x: 0i64, y: 0i64, z: 0i64 }, s)
    } else {
        match world.spec_hit(ray, T_ACNE, T_LIMIT) {
            Some(hit) => {
                let sc = hit.mat.spec_scatter_rng(ray, hit, s);
                match sc.0 {
                    Some((attenuation, scattered)) => {
                        let rec = spec_ray_color(scattered, world, (depth - 1) as nat, sc.1);
                        (
                            Vec3 {
                                x: fmul(attenuation.x as int, rec.0.x as int) as i64,
                                y: fmul(attenuation.y as int, rec.0.y as int) as i64,
                                z: fmul(attenuation.z as int, rec.0.z as int) as i64,
                            },
                            rec.1,
                        )
                    },
                    None => (Vec3 { x: 0i64, y: 0i64, z: 0i64 }, sc.1),
                }
            },
            None => (spec_background(spec_normalize(ray.dir)), s),
        }
    }
}

/// The recursive light-transport integrator. The contract pins the result
/// and the generator state to [`spec_ray_color`] — in particular, on a hit
/// whose material scatters, the result is the attenuation multiplied
/// component-wise with the color of the scattered ray at one less depth —
/// and also states the laws directly: depth 0 gives black whatever the ray
/// and scene, every channel lies in `[0, 1]` for a well-formed scene, a
/// miss gives exactly the background gradient, and a pure absorber gives
/// black.
pub fn ray_color(ray: &Ray, world: &HittableList, depth: usize, rng: &mut Rng) -> (c: Color)
    requires
        world.wf(),
        wf_ray(*ray),
    ensures
        c == spec_ray_color(*ray, *world, depth as nat, old(rng)@).0,
        final(rng)@ == spec_ray_color(*ray, *world, depth as nat, old(rng)@).1,
        0 <= c.x <= SCALE,
        0 <= c.y <= SCALE,
        0 <= c.z <= SCALE,
        depth == 0 ==> c == (Vec3 { x: 0i64, y: 0i64, z: 0i64 }),
        depth > 0 && dot3(ray.dir, ray.dir) >= 1 && world.spec_hit(*ray, T_ACNE, T_LIMIT)
            is None ==> c == spec_background(spec_normalize(ray.dir)),
        depth > 0 && dot3(ray.dir, ray.dir) >= 1 && (world.spec_hit(*ray, T_ACNE, T_LIMIT)
            matches Some(h) && h.mat matches crate::material::Material::Black(_)) ==> c == (
        Vec3 { x: 0i64, y: 0i64, z: 0i64 }),
    decreases depth,
{
    if depth == 0 {
        return Vec3::zeros();
    }
    proof {
        lemma_dot3_bound_div(ray.dir, ray.dir, DIR_LIMIT as int, DIR_LIMIT as int,
            0x4000_0000_0000);
    }
    let nsq: i64 = ray.direction().norm_squared();
    if nsq < 1 {
        // A direction below one resolution step cannot be normalized:
        // treat the ray as absorbed.
        return Vec3::zeros();
    }
    match world.hit(ray, T_ACNE, T_LIMIT) {
        Some(hit) => {
            match hit.mat.scatter(ray, &hit, rng) {
                Some((attenuation, scattered)) => {
                    let rec: Color = ray_color(&scattered, world, depth - 1, rng);
                    proof {
                        lemma_fmul_unit(attenuation.x as int, rec.x as int);
                        lemma_fmul_unit(attenuation.y as int, rec.y as int);
                        lemma_fmul_unit(attenuation.z as int, rec.z as int);
                        lemma_mul_nonnegative(attenuation.x as int, rec.x as int);
                        lemma_div_pos_is_pos(attenuation.x as int * rec.x as int, SCALE as int);
                        lemma_mul_nonnegative(attenuation.y as int, rec.y as int);
                        lemma_div_pos_is_pos(attenuation.y as int * rec.y as int, SCALE as int);
                        lemma_mul_nonnegative(attenuation.z as int, rec.z as int);
                        lemma_div_pos_is_pos(attenuation.z as int * rec.z as int, SCALE as int);
                    }
                    attenuation.component_mul(rec)
                },
                None => Vec3::zeros(),
            }
        },
        None => {
            let unit_direction: Vec3 = ray.direction().normalize();
            let tt: i64 = fx_clamp(fx_divint(unit_direction.y + SCALE, 2), 0, SCALE);
            proof {
                lemma_fmul_unit(tt as int, 32768);
                lemma_fmul_unit(tt as int, 45875);
                lemma_fmul_unit(tt as int, 65536);
            }
            let white_part: i64 = SCALE - tt;
            Vec3 {
                x: white_part + fx_mul(tt, 32768),
                y: white_part + fx_mul(tt, 45875),
                z: white_part + fx_mul(tt, 65536),
            }
        },
    }
}

/// The cross product of bounded vectors is bounded.
proof fn lemma_cross_bound(a: Vec3, b: Vec3, ma: int, mb: int, m: int)
    requires
        a.in_range(ma),
        b.in_range(mb),
        0 <= ma,
        0 <= mb,
        0 <= m,
        2 * m <= i64::MAX,
        ma * mb <= m * SCALE as int,
    ensures
        cross3(a, b).in_range(2 * m),
        -m <= fmul(a.y as int, b.z as int) <= m,
        -m <= fmul(a.z as int, b.y as int) <= m,
        -m <= fmul(a.z as int, b.x as int) <= m,
        -m <= fmul(a.x as int, b.z as int) <= m,
        -m <= fmul(a.x as int, b.y as int) <= m,
        -m <= fmul(a.y as int, b.x as int) <= m,
{
    lemma_fmul_range(a.y as int, b.z as int, ma, mb, m);
    lemma_fmul_range(a.z as int, b.y as int, ma, mb, m);
    lemma_fmul_range(a.z as int, b.x as int, ma, mb, m);
    lemma_fmul_range(a.x as int, b.z as int, ma, mb, m);
    lemma_fmul_range(a.x as int, b.y as int, ma, mb, m);
    lemma_fmul_range(a.y as int, b.x as int, ma, mb, m);
}

/// A scaled vector stays bounded when the factor bounds multiply within the
/// target bound.
proof fn lemma_scale_bound(v: Vec3, k: int, mv: int, mk: int, m: int)
    requires
        v.in_range(mv),
        -mk <= k <= mk,
        0 <= mv,
        0 <= mk,
        0 <= m <= i64::MAX,
        mv * mk <= m * SCALE as int,
    ensures
        i64::MIN <= fmul(v.x as int, k) <= i64::MAX,
        i64::MIN <= fmul(v.y as int, k) <= i64::MAX,
        i64::MIN <= fmul(v.z as int, k) <= i64::MAX,
        scale3(v, k).in_range(m),
        -m <= fmul(v.x as int, k) <= m,
        -m <= fmul(v.y as int, k) <= m,
        -m <= fmul(v.z as int, k) <= m,
{
    lemma_fmul_range(v.x as int, k, mv, mk, m);
    lemma_fmul_range(v.y as int, k, mv, mk, m);
    lemma_fmul_range(v.z as int, k, mv, mk, m);
}

/// Floor-dividing a bounded vector's components keeps the bound.
proof fn lemma_divint3_bounds(v: Vec3, d: int, m: int)
    requires
        1 <= d,
        0 <= m,
        v.in_range(m),
    ensures
        divint3(v, d).in_range(m),
        -m <= fdiv(v.x as int, d) <= m,
        -m <= fdiv(v.y as int, d) <= m,
        -m <= fdiv(v.z as int, d) <= m,
{
    lemma_fdiv_mag(v.x as int, d, m);
    lemma_fdiv_mag(v.y as int, d, m);
    lemma_fdiv_mag(v.z as int, d, m);
}

/// Executable componentwise floor division by a positive integer.
fn divint3_exec(v: Vec3, d: i64) -> (r: Vec3)
    requires
        d >= 1,
        v.x > i64::MIN,
        v.y > i64::MIN,
        v.z > i64::MIN,
    ensures
        r == divint3(v, d as int),
{
    Vec3 { x: fx_divint(v.x, d), y: fx_divint(v.y, d), z: fx_divint(v.z, d) }
}

/// The jittered-pixel term stays bounded: the jittered coordinate is at most
/// the image extent, and the per-pixel delta times the extent is bounded by
/// the camera invariant.
proof fn lemma_sample_term(t: int, d: int, w: int, lim: int)
    requires
        1 <= w,
        -(w * SCALE as int) <= t <= w * SCALE as int,
        -lim <= w * d <= lim,
        0 <= lim <= i64::MAX,
    ensures
        i64::MIN <= fmul(t, d) <= i64::MAX,
        -lim <= fmul(t, d) <= lim,
{
    assert(-(lim * SCALE as int) <= t * d <= lim * SCALE as int) by (nonlinear_arith)
        requires
            1 <= w && -(w * SCALE as int) <= t <= w * SCALE as int && -lim <= w * d <= lim
                && 0 <= lim;
    lemma_fdiv_bound(t * d, SCALE as int, lim);
}

/// The average of at most `n` unit-bounded samples is unit-bounded.
proof fn lemma_avg_bound(sum: int, n: int)
    requires
        1 <= n,
        0 <= sum <= n * SCALE as int,
    ensures
        0 <= fdiv(sum, n) <= SCALE as int,
{
    lemma_div_pos_is_pos(sum, n);
    assert(-(SCALE as int * n) <= sum <= SCALE as int * n) by (nonlinear_arith)
        requires
            0 <= sum <= n * SCALE as int && 1 <= n;
    lemma_fdiv_bound(sum, n, SCALE as int);
}

/// The header of the textual pixel map: format tag, dimensions, maximum
/// channel value.
pub open spec fn spec_ppm_header(w: int, h: int) -> Seq<u8> {
    seq![80u8, 51u8, 10u8] + dec_bytes(w) + seq![32u8] + dec_bytes(h) + seq![
        10u8,
        50u8,
        53u8,
        53u8,
        10u8,
    ]
}

/// Append the decimal digits of a small dimension value.
fn push_decimal_small(out: &mut Vec<u8>, v: u64)
    requires
        v <= 9999,
    ensures
        final(out)@ == old(out)@ + dec_bytes(v as int),
{
    if v <= 9 {
        out.push(48 + v as u8);
        assert(out@ =~= old(out)@ + dec_bytes(v as int));
    } else if v <= 99 {
        out.push(48 + (v / 10) as u8);
        out.push(48 + (v % 10) as u8);
        assert(dec_bytes(v as int) == dec_bytes(v as int / 10).push(
            (48 + (v as int % 10)) as u8,
        ));
        assert(out@ =~= old(out)@ + dec_bytes(v as int));
    } else if v <= 999 {
        out.push(48 + (v / 100) as u8);
        out.push(48 + ((v / 10) % 10) as u8);
        out.push(48 + (v % 10) as u8);
        proof {
            assert(v as int / 10 / 10 == v as int / 100) by (nonlinear_arith);
            assert(dec_bytes(v as int) == dec_bytes(v as int / 10).push(
                (48 + (v as int % 10)) as u8,
            ));
            assert(dec_bytes(v as int / 10) == dec_bytes(v as int / 100).push(
                (48 + (v as int / 10 % 10)) as u8,
            ));
        }
        assert(out@ =~= old(out)@ + dec_bytes(v as int));
    } else {
        out.push(48 + (v / 1000) as u8);
        out.push(48 + ((v / 100) % 10) as u8);
        out.push(48 + ((v / 10) % 10) as u8);
        out.push(48 + (v % 10) as u8);
        proof {
            assert(v as int / 10 / 10 == v as int / 100) by (nonlinear_arith);
            assert(v as int / 100 / 10 == v as int / 1000) by (nonlinear_arith);
            assert(dec_bytes(v as int) == dec_bytes(v as int / 10).push(
                (48 + (v as int % 10)) as u8,
            ));
            assert(dec_bytes(v as int / 10) == dec_bytes(v as int / 100).push(
                (48 + (v as int / 10 % 10)) as u8,
            ));
            assert(dec_bytes(v as int / 100) == dec_bytes(v as int / 1000).push(
                (48 + (v as int / 100 % 10)) as u8,
            ));
        }
        assert(out@ =~= old(out)@ + dec_bytes(v as int));
    }
}

} // verus!
