//! Optical materials: one scatter transition of the light-transport walk.
//!
//! The variant set is closed, so dispatch is a single `match` on [`Material`]
//! (shared material instances are small `Copy` values embedded in each
//! primitive). Each scatter either absorbs the ray (`None`) or produces an
//! attenuation color and an outgoing ray; randomized materials draw their
//! samples from the explicit generator and their contracts state what holds
//! of the result for every possible draw.
use vstd::prelude::*;
use crate::vec3::{Vec3, dot3, spec_normalize, lemma_dot3_bound_div, lemma_prod_bound2};
use crate::ray::Ray;
use crate::color::Color;
use crate::fixed::{SCALE, fdiv, fmul, fquot, fclamp, sqrt_floor, fx_mul, fx_div,
    fx_sqrt, fx_clamp, fx_divint, fx_pow5, fpow5, lemma_fmul_unit, lemma_fmul_range,
    lemma_fmul_comm, lemma_fdiv_bound, lemma_fdiv_mag};
use crate::hittable::{HitRecord, wf_hit_record, COORD_LIMIT, POINT_LIMIT, ORIGIN_LIMIT,
    DIR_LIMIT, NORMAL_LIMIT, wf_ray};
use crate::rng::Rng;
use crate::{spec_reflect, spec_refract, reflect, refract, random_unit_vec3, near_zero,
    spec_unit_vec3};
use crate::rng::{next_state, unit_draw};
use crate::approx::{spec_powf, powf_fx};
use vstd::arithmetic::mul::{lemma_mul_nonnegative, lemma_mul_inequality,
    lemma_mul_is_commutative};
use vstd::arithmetic::div_mod::{lemma_div_pos_is_pos, lemma_fundamental_div_mod};

verus! {

/// Refraction indices are kept within this bound so that every refraction
/// intermediate fits; the lensing layers clamp their angle-dependent index
/// into the same bound.
pub const INDEX_LIMIT: i64 = 0x400_0000;

#[derive(Debug, Clone, Copy, PartialEq, Eq, Structural)]
pub struct Lambertian {
    pub albedo: Color,
}

impl Lambertian {
    pub fn new(albedo: Color) -> (r: Lambertian)
        ensures
            r.albedo == albedo,
    {
        Lambertian { albedo }
    }
}

#[derive(Debug, Clone, Copy, PartialEq, Eq, Structural)]
pub struct Metal {
    pub albedo: Color,
    pub fuzz: i64,
}

impl Metal {
    /// The fuzz radius is capped at one.
    pub fn new(albedo: Color, fuzz: i64) -> (r: Metal)
        ensures
            r.albedo == albedo,
            r.fuzz == if fuzz > SCALE { SCALE as int } else { fuzz as int },
    {
        Metal { albedo, fuzz: if fuzz > SCALE { SCALE } else { fuzz } }
    }
}

#[derive(Debug, Clone, Copy, PartialEq, Eq, Structural)]
pub struct Dielectric {
    pub refraction_index: i64,
}

impl Dielectric {
    pub fn new(refraction_index: i64) -> (r: Dielectric)
        ensures
            r.refraction_index == refraction_index,
    {
        Dielectric { refraction_index }
    }
}

#[derive(Debug, Clone, Copy, PartialEq, Eq, Structural)]
pub struct Portal {
    pub albedo: Color,
    pub portal_position: Vec3,
    pub target_position: Vec3,
}

impl Portal {
    pub fn new(albedo: Color, portal_position: Vec3, target_position: Vec3) -> (r: Portal)
        ensures
            r.albedo == albedo,
            r.portal_position == portal_position,
            r.target_position == target_position,
    {
        Portal { albedo, portal_position, target_position }
    }

    /// Two portals with swapped roles, so that leaving either one emerges by
    /// the other.
    pub fn new_pair(albedo_a: Color, albedo_b: Color, pos_a: Vec3, pos_b: Vec3) -> (r: (
        Portal,
        Portal,
    ))
        ensures
            r.0 == (Portal { albedo: albedo_a, portal_position: pos_a, target_position: pos_b }),
            r.1 == (Portal { albedo: albedo_b, portal_position: pos_b, target_position: pos_a }),
    {
        (Portal::new(albedo_a, pos_a, pos_b), Portal::new(albedo_b, pos_b, pos_a))
    }
}

#[derive(Debug, Clone, Copy, PartialEq, Eq, Structural)]
pub struct Black;

impl Black {
    pub fn new() -> (r: Black)
        ensures
            r == (Black {}),
    {
        Black {}
    }
}

/// `1.4`, the offset in the lensing layer coefficient.
pub const LENS_OFFSET: i64 = 91750;

/// `2.8`, the scale in the lensing layer coefficient.
pub const LENS_SCALE: i64 = 183501;

/// The floor that replaces `max(radius - 1.4, 0.0001)` at this resolution.
pub const LENS_FLOOR: i64 = 7;

#[derive(Debug, Clone, Copy, PartialEq, Eq, Structural)]
pub struct BlackHoleLayer {
    pub pre_mult: i64,
}

/// The precomputed per-layer coefficient:
/// `(radius - 1.4).max(0.0001) ^ (-1/2) / layer_count * 2.8`.
pub open spec fn spec_pre_mult(radius: int, layer_count: int) -> int {
    let m = if radius - LENS_OFFSET < LENS_FLOOR {
        LENS_FLOOR as int
    } else {
        radius - LENS_OFFSET
    };
    fmul(fquot(fquot(SCALE as int, sqrt_floor(m * SCALE as int)), layer_count), LENS_SCALE as int)
}

impl BlackHoleLayer {
    pub fn new(radius: i64, layer_count: i64) -> (r: BlackHoleLayer)
        requires
            -COORD_LIMIT <= radius <= COORD_LIMIT,
            1 <= layer_count <= COORD_LIMIT,
        ensures
            r.pre_mult == spec_pre_mult(radius as int, layer_count as int),
    {
        let m: i64 = if radius - LENS_OFFSET < LENS_FLOOR {
            LENS_FLOOR
        } else {
            radius - LENS_OFFSET
        };
        let root: i64 = fx_sqrt(m);
        proof {
            assert(root >= 1) by {
                if root < 1 {
                    assert((root as int + 1) * (root as int + 1) <= 1) by (nonlinear_arith)
                        requires
                            0 <= root as int && root < 1;
                    assert(m * SCALE as int >= 7 * 65536);
                }
            };
            lemma_fdiv_bound(SCALE as int * SCALE as int, root as int, 65536int * 65536int);
            assert(SCALE as int * SCALE as int <= 65536 * 65536 * root as int)
                by (nonlinear_arith)
                requires
                    root as int >= 1;
        }
        let inv_root: i64 = fx_div(SCALE, root);
        proof {
            lemma_fdiv_bound(inv_root as int * SCALE as int, layer_count as int,
                0x1_0000_0000_0000);
            assert(inv_root as int * SCALE as int <= 0x1_0000_0000_0000 * layer_count as int
                && -(0x1_0000_0000_0000 * layer_count as int) <= inv_root as int
                * SCALE as int) by (nonlinear_arith)
                requires
                    -0x1_0000_0000 <= inv_root as int <= 0x1_0000_0000 && 1
                        <= layer_count as int;
        }
        let per_layer: i64 = fx_div(inv_root, layer_count);
        proof {
            lemma_fdiv_bound(per_layer as int * LENS_SCALE as int, SCALE as int,
                0x10_0000_0000_0000);
            assert(per_layer as int * LENS_SCALE as int <= 0x10_0000_0000_0000 * 65536
                && -(0x10_0000_0000_0000 * 65536) <= per_layer as int * LENS_SCALE as int)
                by (nonlinear_arith)
                requires
                    -0x1_0000_0000_0000 <= per_layer as int <= 0x1_0000_0000_0000;
        }
        let pre_mult: i64 = fx_mul(per_layer, LENS_SCALE);
        BlackHoleLayer { pre_mult }
    }
}

/// The two fixed grays of the checkerboard.
pub const CHECKER_LIGHT: i64 = 49152;

pub const CHECKER_DARK: i64 = 16384;

#[derive(Debug, Clone, Copy, PartialEq, Eq, Structural)]
pub struct Checker;

impl Checker {
    pub fn new() -> (r: Checker)
        ensures
            r == (Checker {}),
    {
        Checker {}
    }
}

/// The checkerboard albedo at a point: floor the coordinates to unit cells,
/// sum, and pick a gray by parity.
pub open spec fn spec_checker_albedo(p: Vec3) -> Color {
    let cells = fdiv(p.x as int, SCALE as int) + fdiv(p.y as int, SCALE as int) + fdiv(
        p.z as int,
        SCALE as int,
    );
    if cells % 2 == 0 {
        Vec3 { x: CHECKER_LIGHT, y: CHECKER_LIGHT, z: CHECKER_LIGHT }
    } else {
        Vec3 { x: CHECKER_DARK, y: CHECKER_DARK, z: CHECKER_DARK }
    }
}

#[derive(Debug, Clone, Copy, PartialEq, Eq, Structural)]
pub enum Material {
    Lambertian(Lambertian),
    Metal(Metal),
    Dielectric(Dielectric),
    Portal(Portal),
    Black(Black),
    BlackHoleLayer(BlackHoleLayer),
    Checker(Checker),
}

/// A color with every channel a valid albedo, in `[0, 1]`.
pub open spec fn wf_albedo(c: Color) -> bool {
    &&& 0 <= c.x <= SCALE
    &&& 0 <= c.y <= SCALE
    &&& 0 <= c.z <= SCALE
}

/// Runtime test of [`wf_albedo`].
pub fn albedo_ok(c: Color) -> (r: bool)
    ensures
        r == wf_albedo(c),
{
    0 <= c.x && c.x <= SCALE && 0 <= c.y && c.y <= SCALE && 0 <= c.z && c.z <= SCALE
}

/// White: full transmission, no tinting.
pub open spec fn spec_white() -> Color {
    Vec3 { x: SCALE, y: SCALE, z: SCALE }
}

/// Schlick's approximation of the Fresnel reflectance:
/// `r0 + (1 - r0) (1 - cos)^5` with `r0 = ((1 - n) / (1 + n))^2`; the power's
/// base is clamped into `[0, 1]` (inert for physical cosines).
pub open spec fn spec_reflectance(cosine: int, refraction_index: int) -> int {
    let q = fquot(SCALE as int - refraction_index, SCALE as int + refraction_index);
    let r0 = fmul(q, q);
    r0 + fmul(SCALE as int - r0, fpow5(fclamp(SCALE as int - cosine, 0, SCALE as int)))
}

/// Schlick's approximation, executable; the result lies in `[0, 2]`.
pub fn reflectance(cosine: i64, refraction_index: i64) -> (r: i64)
    requires
        0 < refraction_index <= INDEX_LIMIT,
        -0x100_0000 <= cosine <= 0x100_0000,
    ensures
        r == spec_reflectance(cosine as int, refraction_index as int),
        0 <= r <= 2 * SCALE,
{
    proof {
        lemma_prod_bound2(SCALE as int - refraction_index as int, SCALE as int,
            0x401_0000int, 0x10000int);
        lemma_fdiv_bound((SCALE as int - refraction_index as int) * SCALE as int,
            SCALE as int + refraction_index as int, SCALE as int);
        assert((SCALE as int - refraction_index as int) * SCALE as int <= SCALE as int * (
        SCALE as int + refraction_index as int) && -(SCALE as int * (SCALE as int
            + refraction_index as int)) <= (SCALE as int - refraction_index as int)
            * SCALE as int) by (nonlinear_arith)
            requires
                0 < refraction_index as int <= 0x400_0000;
    }
    let q: i64 = fx_div(SCALE - refraction_index, SCALE + refraction_index);
    proof {
        lemma_fmul_range(q as int, q as int, SCALE as int, SCALE as int, SCALE as int);
        assert(q as int * q as int >= 0) by (nonlinear_arith);
        lemma_div_pos_is_pos(q as int * q as int, SCALE as int);
    }
    let r0: i64 = fx_mul(q, q);
    let base: i64 = fx_clamp(SCALE - cosine, 0, SCALE);
    let p5: i64 = fx_pow5(base);
    proof {
        lemma_fmul_unit(SCALE as int - r0 as int, p5 as int);
    }
    let tail: i64 = fx_mul(SCALE - r0, p5);
    r0 + tail
}

/// At normal incidence (`cos = 1`) Schlick's approximation gives exactly
/// `r0 = ((1 - n) / (1 + n))^2`: the angular term vanishes.
pub proof fn lemma_reflectance_normal_incidence(refraction_index: int)
    requires
        0 < refraction_index <= INDEX_LIMIT,
    ensures
        ({
            let q = fquot(SCALE as int - refraction_index, SCALE as int + refraction_index);
            spec_reflectance(SCALE as int, refraction_index) == fmul(q, q)
        }),
{
    let q = fquot(SCALE as int - refraction_index, SCALE as int + refraction_index);
    let r0 = fmul(q, q);
    assert(fclamp(SCALE as int - SCALE as int, 0, SCALE as int) == 0);
    assert(fmul(0, 0) == 0) by {
        assert(fdiv(0int, SCALE as int) == 0);
    };
    assert(fpow5(0) == 0) by {
        assert(fdiv(0int, SCALE as int) == 0);
    };
    assert(fmul(SCALE as int - r0, 0) == 0) by {
        assert((SCALE as int - r0) * 0 == 0);
        assert(fdiv(0int, SCALE as int) == 0);
    };
}

/// The scattered direction of a refractive material: reflect when told to,
/// otherwise refract, falling back to reflection if the refracted direction
/// escapes the direction bound (a fixed-point analogue of total internal
/// reflection).
pub open spec fn spec_deflect(unit: Vec3, normal: Vec3, ri: int, must_reflect: bool) -> Vec3 {
    let refl = spec_reflect(unit, normal);
    if must_reflect {
        refl
    } else {
        let refr = spec_refract(unit, normal, ri);
        if refr.in_range(DIR_LIMIT as int) {
            refr
        } else {
            refl
        }
    }
}

/// A reflection of a unit-length direction is itself well within the
/// direction bound.
proof fn lemma_reflect_unit_bound(unit: Vec3, normal: Vec3)
    requires
        unit.in_range(2 * SCALE as int),
        normal.in_range(NORMAL_LIMIT as int),
    ensures
        spec_reflect(unit, normal).in_range(DIR_LIMIT as int),
{
    lemma_dot3_bound_div(unit, normal, 2 * SCALE as int, NORMAL_LIMIT as int, 0xC_0000);
    let d2 = 2 * dot3(unit, normal);
    lemma_fmul_range(d2, normal.x as int, 0x18_0000, NORMAL_LIMIT as int, 0x30_0000);
    lemma_fmul_range(d2, normal.y as int, 0x18_0000, NORMAL_LIMIT as int, 0x30_0000);
    lemma_fmul_range(d2, normal.z as int, 0x18_0000, NORMAL_LIMIT as int, 0x30_0000);
}

fn deflect(unit: Vec3, normal: Vec3, ri: i64, must_reflect: bool) -> (r: Vec3)
    requires
        unit.in_range(2 * SCALE as int),
        normal.in_range(NORMAL_LIMIT as int),
        0 < ri <= INDEX_LIMIT,
    ensures
        r == spec_deflect(unit, normal, ri as int, must_reflect),
        r.in_range(DIR_LIMIT as int),
{
    proof {
        lemma_reflect_unit_bound(unit, normal);
    }
    let refl: Vec3 = reflect(&unit, &normal);
    if must_reflect {
        refl
    } else {
        let refr: Vec3 = refract(&unit, &normal, ri);
        if refr.in_range_exec(DIR_LIMIT) {
            refr
        } else {
            refl
        }
    }
}

impl Lambertian {
    /// The scatter built from the unit sample `u`: diffuse direction
    /// `normal + u`, falling back to the normal when the sum cancels.
    pub open spec fn spec_scatter(self, hit: HitRecord, u: Vec3) -> (Color, Ray) {
        let sum = Vec3 {
            x: (hit.normal.x + u.x) as i64,
            y: (hit.normal.y + u.y) as i64,
            z: (hit.normal.z + u.z) as i64,
        };
        let dir = if sum.x == 0 && sum.y == 0 && sum.z == 0 {
            hit.normal
        } else {
            sum
        };
        (self.albedo, Ray { orig: hit.p, dir })
    }

    /// What [`Lambertian::scatter`] returns and the generator state it
    /// leaves: the scatter built from the unit sample the state yields.
    pub open spec fn spec_scatter_rng(self, hit: HitRecord, s: u64) -> (Option<(Color, Ray)>, u64) {
        let d = spec_unit_vec3(s);
        (Some(self.spec_scatter(hit, d.0)), d.1)
    }

    /// Diffuse scatter; always succeeds, for every possible sample.
    pub fn scatter(&self, _ray_in: &Ray, hit_record: &HitRecord, rng: &mut Rng) -> (res: Option<
        (Color, Ray),
    >)
        requires
            wf_hit_record(*hit_record),
        ensures
            res is Some,
            res == self.spec_scatter_rng(*hit_record, old(rng)@).0,
            final(rng)@ == self.spec_scatter_rng(*hit_record, old(rng)@).1,
            exists|u: Vec3|
                u.in_range(2 * SCALE as int) && res == Some(
                    #[trigger] self.spec_scatter(*hit_record, u),
                ),
            res->Some_0.0 == self.albedo,
            res->Some_0.1.orig == hit_record.p,
            res->Some_0.1.dir.in_range(4 * SCALE as int),
    {
        let u: Vec3 = random_unit_vec3(rng);
        let mut scatter_dir: Vec3 = hit_record.normal.add(u);
        if near_zero(&scatter_dir) {
            scatter_dir = hit_record.normal;
        }
        let scattered: Ray = Ray::new(hit_record.p, scatter_dir);
        let res: Option<(Color, Ray)> = Some((self.albedo, scattered));
        proof {
            assert(u.in_range(2 * SCALE as int) && res == Some(
                self.spec_scatter(*hit_record, u),
            ));
        }
        res
    }
}

/// Energy non-amplification for the diffuse material: built with albedo
/// channels at most one, no channel of the scattered attenuation exceeds
/// one, for every hit and every sample.
pub proof fn lemma_lambertian_energy(m: Lambertian, hit: HitRecord, u: Vec3)
    requires
        m.albedo.x <= SCALE,
        m.albedo.y <= SCALE,
        m.albedo.z <= SCALE,
    ensures
        m.spec_scatter(hit, u).0.x <= SCALE,
        m.spec_scatter(hit, u).0.y <= SCALE,
        m.spec_scatter(hit, u).0.z <= SCALE,
{
}

impl Metal {
    /// The scatter built from the unit sample `u`: mirror reflection,
    /// normalized, perturbed by `fuzz * u`; absorbed if the reflection
    /// degenerates or the perturbed direction leaves the surface's outside.
    pub open spec fn spec_scatter(self, ray: Ray, hit: HitRecord, u: Vec3) -> Option<
        (Color, Ray),
    > {
        let reflected = spec_reflect(ray.dir, hit.normal);
        if dot3(reflected, reflected) < 1 {
            None
        } else {
            let rdir = spec_normalize(reflected);
            let dir = Vec3 {
                x: (rdir.x + fmul(self.fuzz as int, u.x as int)) as i64,
                y: (rdir.y + fmul(self.fuzz as int, u.y as int)) as i64,
                z: (rdir.z + fmul(self.fuzz as int, u.z as int)) as i64,
            };
            if dot3(dir, hit.normal) > 0 {
                Some((self.albedo, Ray { orig: hit.p, dir }))
            } else {
                None
            }
        }
    }

    /// What [`Metal::scatter`] returns and the generator state it leaves.
    pub open spec fn spec_scatter_rng(self, ray: Ray, hit: HitRecord, s: u64) -> (Option<
        (Color, Ray),
    >, u64) {
        let d = spec_unit_vec3(s);
        (self.spec_scatter(ray, hit, d.0), d.1)
    }

    /// Specular scatter; absorbs rays whose perturbed reflection would
    /// re-enter the surface.
    pub fn scatter(&self, ray_in: &Ray, hit_record: &HitRecord, rng: &mut Rng) -> (res: Option<
        (Color, Ray),
    >)
        requires
            wf_hit_record(*hit_record),
            wf_ray(*ray_in),
            -SCALE <= self.fuzz <= SCALE,
        ensures
            res == self.spec_scatter_rng(*ray_in, *hit_record, old(rng)@).0,
            final(rng)@ == self.spec_scatter_rng(*ray_in, *hit_record, old(rng)@).1,
            exists|u: Vec3|
                u.in_range(2 * SCALE as int) && res == #[trigger] self.spec_scatter(
                    *ray_in,
                    *hit_record,
                    u,
                ),
            res matches Some(cr) ==> cr.0 == self.albedo && cr.1.orig == hit_record.p
                && cr.1.dir.in_range(4 * SCALE as int),
    {
        let u: Vec3 = random_unit_vec3(rng);
        let reflected: Vec3 = reflect(&ray_in.direction(), &hit_record.normal);
        proof {
            lemma_dot3_bound_div(reflected, reflected, 0x10_0000_0000, 0x10_0000_0000,
                0x400_0000_0000_0000);
        }
        let nsq: i64 = reflected.norm_squared();
        if nsq < 1 {
            proof {
                assert(u.in_range(2 * SCALE as int) && None::<(Color, Ray)>
                    == self.spec_scatter(*ray_in, *hit_record, u));
            }
            return None;
        }
        let rdir: Vec3 = reflected.normalize();
        proof {
            lemma_fmul_range(u.x as int, self.fuzz as int, 2 * SCALE as int, SCALE as int, 2
                * SCALE as int);
            lemma_fmul_range(u.y as int, self.fuzz as int, 2 * SCALE as int, SCALE as int, 2
                * SCALE as int);
            lemma_fmul_range(u.z as int, self.fuzz as int, 2 * SCALE as int, SCALE as int, 2
                * SCALE as int);
            lemma_fmul_comm(u.x as int, self.fuzz as int);
            lemma_fmul_comm(u.y as int, self.fuzz as int);
            lemma_fmul_comm(u.z as int, self.fuzz as int);
        }
        let step: Vec3 = u.scale(self.fuzz);
        let dir: Vec3 = rdir.add(step);
        proof {
            lemma_dot3_bound_div(dir, hit_record.normal, 4 * SCALE as int,
                NORMAL_LIMIT as int, 0x18_0000);
        }
        let res: Option<(Color, Ray)> = if dir.dot(hit_record.normal) > 0 {
            Some((self.albedo, Ray::new(hit_record.p, dir)))
        } else {
            None
        };
        proof {
            assert(u.in_range(2 * SCALE as int) && res == self.spec_scatter(
                *ray_in,
                *hit_record,
                u,
            ));
        }
        res
    }
}

/// Energy non-amplification for the specular material: built with albedo
/// channels at most one, no channel of a returned attenuation exceeds one,
/// for every ray, hit and sample.
pub proof fn lemma_metal_energy(m: Metal, ray: Ray, hit: HitRecord, u: Vec3)
    requires
        m.albedo.x <= SCALE,
        m.albedo.y <= SCALE,
        m.albedo.z <= SCALE,
    ensures
        m.spec_scatter(ray, hit, u) matches Some(cr) ==> cr.0.x <= SCALE && cr.0.y <= SCALE
            && cr.0.z <= SCALE,
{
}

impl Dielectric {
    /// The scatter decided by the uniform draw `dr`: choose the relative
    /// index by face, detect total internal reflection from the sine, and
    /// otherwise reflect with probability given by Schlick's approximation.
    pub open spec fn spec_scatter(self, ray: Ray, hit: HitRecord, dr: int) -> (Color, Ray) {
        let ri0 = if hit.front_face {
            fquot(SCALE as int, self.refraction_index as int)
        } else {
            self.refraction_index as int
        };
        let ri = if ri0 < 1 {
            1int
        } else {
            ri0
        };
        let unit_direction = spec_normalize(ray.dir);
        let cos0 = -dot3(unit_direction, hit.normal);
        let cos = if cos0 > SCALE {
            SCALE as int
        } else {
            cos0
        };
        let s2 = SCALE as int - fmul(cos, cos);
        let s2c = if s2 < 0 {
            0int
        } else {
            s2
        };
        let sin_theta = sqrt_floor(s2c * SCALE as int);
        let cannot_refract = fmul(ri, sin_theta) > SCALE;
        let must_reflect = cannot_refract || spec_reflectance(cos, ri) > dr;
        (spec_white(), Ray { orig: hit.p, dir: spec_deflect(unit_direction, hit.normal, ri,
            must_reflect) })
    }

    /// What [`Dielectric::scatter`] returns and the generator state it
    /// leaves: the scatter decided by the one uniform draw the state yields.
    pub open spec fn spec_scatter_rng(self, ray: Ray, hit: HitRecord, s: u64) -> (Option<
        (Color, Ray),
    >, u64) {
        let s2 = next_state(s);
        (Some(self.spec_scatter(ray, hit, unit_draw(s2))), s2)
    }

    /// Refractive scatter; always returns a ray (white attenuation).
    #[verifier::rlimit(60)]
    pub fn scatter(&self, ray_in: &Ray, hit_record: &HitRecord, rng: &mut Rng) -> (res: Option<
        (Color, Ray),
    >)
        requires
            wf_hit_record(*hit_record),
            wf_ray(*ray_in),
            SCALE <= self.refraction_index <= INDEX_LIMIT,
            dot3(ray_in.dir, ray_in.dir) >= 1,
        ensures
            res is Some,
            res == self.spec_scatter_rng(*ray_in, *hit_record, old(rng)@).0,
            final(rng)@ == self.spec_scatter_rng(*ray_in, *hit_record, old(rng)@).1,
            exists|dr: int|
                0 <= dr < SCALE && res == Some(
                    #[trigger] self.spec_scatter(*ray_in, *hit_record, dr),
                ),
            res->Some_0.0 == spec_white(),
            res->Some_0.1.orig == hit_record.p,
            res->Some_0.1.dir.in_range(DIR_LIMIT as int),
    {
        let ri0: i64 = if hit_record.front_face {
            proof {
                assert(-(SCALE as int * self.refraction_index as int) <= SCALE as int
                    * SCALE as int <= SCALE as int * self.refraction_index as int)
                    by (nonlinear_arith)
                    requires
                        SCALE as int <= self.refraction_index as int;
                crate::fixed::lemma_fdiv_bound(SCALE as int * SCALE as int,
                    self.refraction_index as int, SCALE as int);
            }
            fx_div(SCALE, self.refraction_index)
        } else {
            self.refraction_index
        };
        let ri: i64 = if ri0 < 1 { 1 } else { ri0 };
        let unit_direction: Vec3 = ray_in.direction().normalize();
        let (cos, sin_theta): (i64, i64) = cos_sin_against(unit_direction, hit_record.normal);
        proof {
            lemma_fmul_range(ri as int, sin_theta as int, INDEX_LIMIT as int, SCALE as int,
                INDEX_LIMIT as int);
        }
        let cannot_refract: bool = fx_mul(ri, sin_theta) > SCALE;
        let dr: i64 = rng.next_unit();
        let must_reflect: bool = cannot_refract || reflectance(cos, ri) > dr;
        let dir: Vec3 = deflect(unit_direction, hit_record.normal, ri, must_reflect);
        let res: Option<(Color, Ray)> = Some(
            (Vec3 { x: SCALE, y: SCALE, z: SCALE }, Ray::new(hit_record.p, dir)),
        );
        proof {
            assert(0 <= dr < SCALE && res == Some(
                self.spec_scatter(*ray_in, *hit_record, dr as int),
            ));
        }
        res
    }
}

/// The capped cosine of the incident angle against the normal, and the
/// derived sine; shared by the refractive materials.
fn cos_sin_against(unit_direction: Vec3, normal: Vec3) -> (r: (i64, i64))
    requires
        unit_direction.in_range(2 * SCALE as int),
        normal.in_range(NORMAL_LIMIT as int),
    ensures
        ({
            let cos0 = -dot3(unit_direction, normal);
            let cos = if cos0 > SCALE {
                SCALE as int
            } else {
                cos0
            };
            let s2 = SCALE as int - fmul(cos, cos);
            let s2c = if s2 < 0 {
                0int
            } else {
                s2
            };
            r.0 == cos && r.1 == sqrt_floor(s2c * SCALE as int) && -0x100_0000 <= r.0
                <= SCALE && 0 <= r.1 <= SCALE
        }),
{
    proof {
        lemma_dot3_bound_div(unit_direction, normal, 2 * SCALE as int, NORMAL_LIMIT as int,
            0xC_0000);
    }
    let d: i64 = unit_direction.dot(normal);
    let cos0: i64 = -d;
    let cos: i64 = if cos0 > SCALE { SCALE } else { cos0 };
    proof {
        lemma_fmul_range(cos as int, cos as int, 0xC_0000, 0xC_0000, 0x90_0000);
        assert(cos as int * cos as int >= 0) by (nonlinear_arith);
        lemma_div_pos_is_pos(cos as int * cos as int, SCALE as int);
    }
    let s2: i64 = SCALE - fx_mul(cos, cos);
    let s2c: i64 = if s2 < 0 { 0 } else { s2 };
    let sin_theta: i64 = fx_sqrt(s2c);
    proof {
        assert(sin_theta <= SCALE) by {
            if sin_theta > SCALE {
                lemma_mul_inequality(SCALE as int + 1, sin_theta as int, SCALE as int + 1);
                lemma_mul_is_commutative(sin_theta as int, SCALE as int + 1);
                lemma_mul_inequality(SCALE as int + 1, sin_theta as int, sin_theta as int);
                assert(s2c as int * SCALE as int <= SCALE as int * SCALE as int)
                    by (nonlinear_arith)
                    requires
                        0 <= s2c as int <= SCALE as int;
            }
        };
    }
    (cos, sin_theta)
}

impl Portal {
    /// The scatter of a portal: a front-face hit passes the ray through
    /// unchanged; leaving through the far side re-emits the ray from the
    /// paired location, translated by the hit's offset from this portal,
    /// tinted by the albedo.
    pub open spec fn spec_scatter(self, ray: Ray, hit: HitRecord) -> (Color, Ray) {
        if hit.front_face {
            (spec_white(), Ray { orig: hit.p, dir: ray.dir })
        } else {
            let orig = Vec3 {
                x: (self.target_position.x + (hit.p.x - self.portal_position.x)) as i64,
                y: (self.target_position.y + (hit.p.y - self.portal_position.y)) as i64,
                z: (self.target_position.z + (hit.p.z - self.portal_position.z)) as i64,
            };
            (self.albedo, Ray { orig, dir: ray.dir })
        }
    }

    /// Teleporting scatter; deterministic, the generator is untouched.
    pub fn scatter(&self, ray_in: &Ray, hit_record: &HitRecord, _rng: &mut Rng) -> (res: Option<
        (Color, Ray),
    >)
        requires
            wf_hit_record(*hit_record),
            self.portal_position.in_range(COORD_LIMIT as int),
            self.target_position.in_range(COORD_LIMIT as int),
        ensures
            res == Some(self.spec_scatter(*ray_in, *hit_record)),
            final(_rng)@ == old(_rng)@,
            res->Some_0.1.orig.in_range(ORIGIN_LIMIT as int),
            res->Some_0.1.dir == ray_in.dir,
    {
        if hit_record.front_face {
            return Some(
                (Vec3 { x: SCALE, y: SCALE, z: SCALE }, Ray::new(hit_record.p,
                    ray_in.direction())),
            );
        }
        let offset: Vec3 = hit_record.p.sub(self.portal_position);
        let orig: Vec3 = self.target_position.add(offset);
        Some((self.albedo, Ray::new(orig, ray_in.direction())))
    }
}

/// A ray leaving portal A at `p` emerges at `target + (p - position)` with
/// its direction preserved, and a paired portal B maps the emerging point
/// straight back: the round trip returns exactly to `p`. The two portals are
/// as [`Portal::new_pair`] builds them.
pub proof fn lemma_portal_round_trip(
    albedo_a: Color,
    albedo_b: Color,
    pos_a: Vec3,
    pos_b: Vec3,
    ray1: Ray,
    hit1: HitRecord,
    ray2: Ray,
    hit2: HitRecord,
)
    requires
        pos_a.in_range(COORD_LIMIT as int),
        pos_b.in_range(COORD_LIMIT as int),
        hit1.p.in_range(POINT_LIMIT as int),
        !hit1.front_face,
        !hit2.front_face,
        hit2.p == (Portal { albedo: albedo_a, portal_position: pos_a, target_position: pos_b
        }).spec_scatter(ray1, hit1).1.orig,
    ensures
        ({
            let a = Portal { albedo: albedo_a, portal_position: pos_a, target_position: pos_b };
            let b = Portal { albedo: albedo_b, portal_position: pos_b, target_position: pos_a };
            &&& a.spec_scatter(ray1, hit1).1.orig.x == pos_b.x + (hit1.p.x - pos_a.x)
            &&& a.spec_scatter(ray1, hit1).1.orig.y == pos_b.y + (hit1.p.y - pos_a.y)
            &&& a.spec_scatter(ray1, hit1).1.orig.z == pos_b.z + (hit1.p.z - pos_a.z)
            &&& a.spec_scatter(ray1, hit1).1.dir == ray1.dir
            &&& b.spec_scatter(ray2, hit2).1.orig == hit1.p
            &&& b.spec_scatter(ray2, hit2).1.dir == ray2.dir
        }),
{
}

impl Black {
    /// The absorber: every ray terminates; the generator is untouched.
    pub fn scatter(&self, _ray_in: &Ray, _hit_record: &HitRecord, _rng: &mut Rng) -> (res:
        Option<(Color, Ray)>)
        ensures
            res is None,
            final(_rng)@ == old(_rng)@,
    {
        None
    }
}

impl Checker {
    /// Like the diffuse scatter, with the albedo chosen by the checkerboard
    /// parity of the hit point.
    pub open spec fn spec_scatter(self, hit: HitRecord, u: Vec3) -> (Color, Ray) {
        let sum = Vec3 {
            x: (hit.normal.x + u.x) as i64,
            y: (hit.normal.y + u.y) as i64,
            z: (hit.normal.z + u.z) as i64,
        };
        let dir = if sum.x == 0 && sum.y == 0 && sum.z == 0 {
            hit.normal
        } else {
            sum
        };
        (spec_checker_albedo(hit.p), Ray { orig: hit.p, dir })
    }

    /// What [`Checker::scatter`] returns and the generator state it leaves.
    pub open spec fn spec_scatter_rng(self, hit: HitRecord, s: u64) -> (Option<(Color, Ray)>, u64) {
        let d = spec_unit_vec3(s);
        (Some(self.spec_scatter(hit, d.0)), d.1)
    }

    /// Checkerboard diffuse scatter; always succeeds, for every sample.
    pub fn scatter(&self, _ray_in: &Ray, hit_record: &HitRecord, rng: &mut Rng) -> (res: Option<
        (Color, Ray),
    >)
        requires
            wf_hit_record(*hit_record),
        ensures
            res is Some,
            res == self.spec_scatter_rng(*hit_record, old(rng)@).0,
            final(rng)@ == self.spec_scatter_rng(*hit_record, old(rng)@).1,
            exists|u: Vec3|
                u.in_range(2 * SCALE as int) && res == Some(
                    #[trigger] self.spec_scatter(*hit_record, u),
                ),
            res->Some_0.0 == spec_checker_albedo(hit_record.p),
            res->Some_0.1.orig == hit_record.p,
            res->Some_0.1.dir.in_range(4 * SCALE as int),
    {
        let p: Vec3 = hit_record.p;
        let cx: i64 = fx_divint(p.x, SCALE);
        let cy: i64 = fx_divint(p.y, SCALE);
        let cz: i64 = fx_divint(p.z, SCALE);
        proof {
            lemma_fdiv_mag(p.x as int, SCALE as int, POINT_LIMIT as int);
            lemma_fdiv_mag(p.y as int, SCALE as int, POINT_LIMIT as int);
            lemma_fdiv_mag(p.z as int, SCALE as int, POINT_LIMIT as int);
        }
        let cells: i64 = cx + cy + cz;
        let half: i64 = fx_divint(cells, 2);
        proof {
            lemma_fdiv_mag(cells as int, 2, 3 * POINT_LIMIT as int);
            lemma_fundamental_div_mod(cells as int, 2);
        }
        let even: bool = cells - 2 * half == 0;
        let albedo: Color = if even {
            Vec3 { x: CHECKER_LIGHT, y: CHECKER_LIGHT, z: CHECKER_LIGHT }
        } else {
            Vec3 { x: CHECKER_DARK, y: CHECKER_DARK, z: CHECKER_DARK }
        };
        let u: Vec3 = random_unit_vec3(rng);
        let mut scatter_dir: Vec3 = hit_record.normal.add(u);
        if near_zero(&scatter_dir) {
            scatter_dir = hit_record.normal;
        }
        let res: Option<(Color, Ray)> = Some((albedo, Ray::new(hit_record.p, scatter_dir)));
        proof {
            assert(u.in_range(2 * SCALE as int) && res == Some(
                self.spec_scatter(*hit_record, u),
            ));
        }
        res
    }
}

/// Energy non-amplification for the checkerboard: both fixed grays are
/// fractional, so no attenuation channel ever exceeds one, for every hit
/// point and sample.
pub proof fn lemma_checker_energy(c: Checker, hit: HitRecord, u: Vec3)
    ensures
        0 <= c.spec_scatter(hit, u).0.x <= SCALE,
        0 <= c.spec_scatter(hit, u).0.y <= SCALE,
        0 <= c.spec_scatter(hit, u).0.z <= SCALE,
{
}

/// `1.74`, the exponent of the lensing index curve.
pub const LENS_EXPONENT: i64 = 114033;

/// `0.91` and `0.09`, the blend thresholds of the layer weight.
pub const LENS_BLEND_HIGH: i64 = 59638;

pub const LENS_BLEND_SPAN: i64 = 5898;

impl BlackHoleLayer {
    /// The deterministic scatter of one lensing shell: an angle-dependent
    /// layer weight (a fifth-power falloff with a linear rolloff near
    /// grazing), an effective refraction index
    /// `(pre_mult * weight)^1.74 * 22 + 1` (clamped into the index bound),
    /// then the same reflect-or-refract decision as the dielectric, without
    /// the probabilistic term.
    pub open spec fn spec_scatter(self, ray: Ray, hit: HitRecord) -> (Color, Ray) {
        let wi = spec_normalize(ray.dir);
        let f0 = dot3(wi, hit.normal);
        let f1 = if f0 < 0 {
            -f0
        } else {
            f0
        };
        let f2 = SCALE as int - fpow5(fclamp(f1, 0, SCALE as int));
        let lw = if f2 > LENS_BLEND_HIGH {
            fclamp(SCALE as int - fquot(f2 - LENS_BLEND_HIGH, LENS_BLEND_SPAN as int), 0,
                SCALE as int)
        } else {
            SCALE as int
        };
        let powed = spec_powf(fmul(self.pre_mult as int, lw), LENS_EXPONENT as int);
        let ri_base = fclamp(fmul(powed, 22 * SCALE as int) + SCALE, SCALE as int,
            INDEX_LIMIT as int);
        let ri0 = if hit.front_face {
            fquot(SCALE as int, ri_base)
        } else {
            ri_base
        };
        let ri = if ri0 < 1 {
            1int
        } else {
            ri0
        };
        let cos0 = -dot3(wi, hit.normal);
        let cos = if cos0 > SCALE {
            SCALE as int
        } else {
            cos0
        };
        let s2 = SCALE as int - fmul(cos, cos);
        let s2c = if s2 < 0 {
            0int
        } else {
            s2
        };
        let sin_theta = sqrt_floor(s2c * SCALE as int);
        let cannot_refract = fmul(ri, sin_theta) > SCALE;
        (spec_white(), Ray { orig: hit.p, dir: spec_deflect(wi, hit.normal, ri,
            cannot_refract) })
    }

    /// Lensing scatter; always returns a ray (white attenuation),
    /// deterministically; the generator is untouched.
    #[verifier::rlimit(60)]
    pub fn scatter(&self, ray_in: &Ray, hit_record: &HitRecord, _rng: &mut Rng) -> (res: Option<
        (Color, Ray),
    >)
        requires
            wf_hit_record(*hit_record),
            wf_ray(*ray_in),
            0 <= self.pre_mult <= INDEX_LIMIT,
            dot3(ray_in.dir, ray_in.dir) >= 1,
        ensures
            res == Some(self.spec_scatter(*ray_in, *hit_record)),
            final(_rng)@ == old(_rng)@,
            res->Some_0.0 == spec_white(),
            res->Some_0.1.orig == hit_record.p,
            res->Some_0.1.dir.in_range(DIR_LIMIT as int),
    {
        let wi: Vec3 = ray_in.direction().normalize();
        proof {
            lemma_dot3_bound_div(wi, hit_record.normal, 2 * SCALE as int, NORMAL_LIMIT as int,
                0xC_0000);
        }
        let f0: i64 = wi.dot(hit_record.normal);
        let f1: i64 = if f0 < 0 { -f0 } else { f0 };
        let f2: i64 = SCALE - fx_pow5(fx_clamp(f1, 0, SCALE));
        let lw: i64 = if f2 > LENS_BLEND_HIGH {
            proof {
                lemma_prod_bound2(f2 as int - LENS_BLEND_HIGH as int, SCALE as int, 0x10000,
                    0x10000);
                lemma_fdiv_mag((f2 as int - LENS_BLEND_HIGH as int) * SCALE as int,
                    LENS_BLEND_SPAN as int, 0x10000int * 0x10000int);
            }
            fx_clamp(SCALE - fx_div(f2 - LENS_BLEND_HIGH, LENS_BLEND_SPAN), 0, SCALE)
        } else {
            SCALE
        };
        proof {
            lemma_fmul_range(self.pre_mult as int, lw as int, INDEX_LIMIT as int, SCALE as int,
                INDEX_LIMIT as int);
            lemma_mul_nonnegative(self.pre_mult as int, lw as int);
            lemma_div_pos_is_pos(self.pre_mult as int * lw as int, SCALE as int);
        }
        let powed: i64 = powf_fx(fx_mul(self.pre_mult, lw), LENS_EXPONENT);
        proof {
            lemma_fmul_range(powed as int, 22 * SCALE as int, INDEX_LIMIT as int, 22
                * SCALE as int, 22 * INDEX_LIMIT as int);
        }
        let ri_base: i64 = fx_clamp(fx_mul(powed, 22 * SCALE) + SCALE, SCALE, INDEX_LIMIT);
        let ri0: i64 = if hit_record.front_face {
            proof {
                assert(-(SCALE as int * ri_base as int) <= SCALE as int * SCALE as int
                    <= SCALE as int * ri_base as int) by (nonlinear_arith)
                    requires
                        SCALE as int <= ri_base as int;
                crate::fixed::lemma_fdiv_bound(SCALE as int * SCALE as int, ri_base as int,
                    SCALE as int);
            }
            fx_div(SCALE, ri_base)
        } else {
            ri_base
        };
        let ri: i64 = if ri0 < 1 { 1 } else { ri0 };
        let (cos, sin_theta): (i64, i64) = cos_sin_against(wi, hit_record.normal);
        proof {
            lemma_fmul_range(ri as int, sin_theta as int, INDEX_LIMIT as int, SCALE as int,
                INDEX_LIMIT as int);
        }
        let cannot_refract: bool = fx_mul(ri, sin_theta) > SCALE;
        let dir: Vec3 = deflect(wi, hit_record.normal, ri, cannot_refract);
        Some((Vec3 { x: SCALE, y: SCALE, z: SCALE }, Ray::new(hit_record.p, dir)))
    }
}

impl Material {
    /// Validity: albedos are fractional, fuzz is capped, refraction indices
    /// are at least one and bounded, portal endpoints are scene coordinates,
    /// and the lensing coefficient is nonnegative and bounded.
    pub open spec fn wf(self) -> bool {
        match self {
            Material::Lambertian(m) => wf_albedo(m.albedo),
            Material::Metal(m) => wf_albedo(m.albedo) && -SCALE <= m.fuzz <= SCALE,
            Material::Dielectric(m) => SCALE <= m.refraction_index <= INDEX_LIMIT,
            Material::Portal(m) => wf_albedo(m.albedo) && m.portal_position.in_range(
                COORD_LIMIT as int,
            ) && m.target_position.in_range(COORD_LIMIT as int),
            Material::Black(_) => true,
            Material::BlackHoleLayer(m) => 0 <= m.pre_mult <= INDEX_LIMIT,
            Material::Checker(_) => true,
        }
    }

    /// Runtime test of [`Material::wf`], for callers outside the verifier.
    pub fn is_well_formed(&self) -> (r: bool)
        ensures
            r == self.wf(),
    {
        match self {
            Material::Lambertian(m) => albedo_ok(m.albedo),
            Material::Metal(m) => albedo_ok(m.albedo) && -SCALE <= m.fuzz && m.fuzz <= SCALE,
            Material::Dielectric(m) => SCALE <= m.refraction_index && m.refraction_index
                <= INDEX_LIMIT,
            Material::Portal(m) => albedo_ok(m.albedo) && m.portal_position.in_range_exec(
                COORD_LIMIT,
            ) && m.target_position.in_range_exec(COORD_LIMIT),
            Material::Black(_) => true,
            Material::BlackHoleLayer(m) => 0 <= m.pre_mult && m.pre_mult <= INDEX_LIMIT,
            Material::Checker(_) => true,
        }
    }

    /// What [`Material::scatter`] returns and the generator state it
    /// leaves, dispatched by variant.
    pub open spec fn spec_scatter_rng(self, ray: Ray, hit: HitRecord, s: u64) -> (Option<
        (Color, Ray),
    >, u64) {
        match self {
            Material::Lambertian(m) => m.spec_scatter_rng(hit, s),
            Material::Metal(m) => m.spec_scatter_rng(ray, hit, s),
            Material::Dielectric(m) => m.spec_scatter_rng(ray, hit, s),
            Material::Portal(m) => (Some(m.spec_scatter(ray, hit)), s),
            Material::Black(_) => (None, s),
            Material::BlackHoleLayer(m) => (Some(m.spec_scatter(ray, hit)), s),
            Material::Checker(m) => m.spec_scatter_rng(hit, s),
        }
    }

    /// One transition of the light-transport walk, dispatched by variant:
    /// the result and the generator state left behind are exactly
    /// [`Material::spec_scatter_rng`] of the entry state. `None` means the
    /// path is absorbed; otherwise the attenuation is fractional in every
    /// channel and the outgoing ray is within the library's ray bounds.
    pub fn scatter(&self, ray_in: &Ray, hit_record: &HitRecord, rng: &mut Rng) -> (res: Option<
        (Color, Ray),
    >)
        requires
            self.wf(),
            wf_hit_record(*hit_record),
            wf_ray(*ray_in),
            dot3(ray_in.dir, ray_in.dir) >= 1,
        ensures
            res == self.spec_scatter_rng(*ray_in, *hit_record, old(rng)@).0,
            final(rng)@ == self.spec_scatter_rng(*ray_in, *hit_record, old(rng)@).1,
            res matches Some(cr) ==> 0 <= cr.0.x <= SCALE && 0 <= cr.0.y <= SCALE && 0
                <= cr.0.z <= SCALE && cr.1.orig.in_range(ORIGIN_LIMIT as int)
                && cr.1.dir.in_range(DIR_LIMIT as int),
            self matches Material::Black(_) ==> res is None,
            !(self matches Material::Black(_)) && !(self matches Material::Metal(_))
                ==> res is Some,
    {
        match self {
            Material::Lambertian(m) => m.scatter(ray_in, hit_record, rng),
            Material::Metal(m) => m.scatter(ray_in, hit_record, rng),
            Material::Dielectric(m) => m.scatter(ray_in, hit_record, rng),
            Material::Portal(m) => {
                let res = m.scatter(ray_in, hit_record, rng);
                proof {
                    if !hit_record.front_face {
                    }
                }
                res
            },
            Material::Black(m) => m.scatter(ray_in, hit_record, rng),
            Material::BlackHoleLayer(m) => m.scatter(ray_in, hit_record, rng),
            Material::Checker(m) => m.scatter(ray_in, hit_record, rng),
        }
    }
}

} // verus!
