//! The intersection protocol: hit records and the closed set of primitives.
//!
//! All geometry lives inside fixed bounds so that every intermediate of the
//! intersection arithmetic provably fits in an `i64`:
//! scene coordinates and radii within [`COORD_LIMIT`], hit points within
//! [`POINT_LIMIT`], ray origins within [`ORIGIN_LIMIT`], ray directions
//! within [`DIR_LIMIT`], oriented normals within [`NORMAL_LIMIT`] and hit
//! parameters within [`T_LIMIT`]. An intersection whose computed point or
//! normal would escape these bounds is treated as a miss, the same policy the
//! interval test applies to a root outside the search range.
use vstd::prelude::*;
use crate::vec3::{Vec3, dot3, dot_raw, lemma_dot3_bound};
use crate::ray::Ray;
use crate::material::Material;
use crate::fixed::{SCALE, fdiv};
use vstd::arithmetic::div_mod::{lemma_div_pos_is_pos, lemma_div_is_ordered};

verus! {

/// Scene coordinates and radii stay within about a thousand world units.
pub const COORD_LIMIT: i64 = 0x400_0000;

/// A surface point of an in-bounds primitive.
pub const POINT_LIMIT: i64 = 0x800_0000;

/// Ray origins: a camera center, a surface point, or a portal translation.
pub const ORIGIN_LIMIT: i64 = 0x1000_0000;

/// Ray directions.
pub const DIR_LIMIT: i64 = 0x4000_0000;

/// Oriented unit-length normals, with rounding slack.
pub const NORMAL_LIMIT: i64 = 131072;

/// Hit parameters.
pub const T_LIMIT: i64 = 0x100_0000_0000;

/// A ray whose origin and direction are within the library's bounds.
pub open spec fn wf_ray(r: Ray) -> bool {
    &&& r.orig.in_range(ORIGIN_LIMIT as int)
    &&& r.dir.in_range(DIR_LIMIT as int)
}

#[derive(Debug, Clone, Copy, PartialEq, Eq, Structural)]
pub struct HitRecord {
    pub t: i64,
    pub p: Vec3,
    pub mat: Material,
    pub normal: Vec3,
    pub front_face: bool,
}

/// What [`HitRecord::new`] builds: the outward geometric normal is flipped to
/// face against the incident ray, and `front_face` records whether it already
/// did.
pub open spec fn spec_hit_record(t: i64, p: Vec3, mat: Material, outward: Vec3, ray: Ray)
    -> HitRecord {
    let front_face = dot3(ray.dir, outward) < 0;
    let normal = if front_face {
        outward
    } else {
        Vec3 { x: (-outward.x) as i64, y: (-outward.y) as i64, z: (-outward.z) as i64 }
    };
    HitRecord { t, p, mat, normal, front_face }
}

/// Bounds on a record produced by an in-bounds intersection.
pub open spec fn wf_hit_record(rec: HitRecord) -> bool {
    &&& rec.p.in_range(POINT_LIMIT as int)
    &&& rec.normal.in_range(NORMAL_LIMIT as int)
    &&& 0 < rec.t <= T_LIMIT
}

impl HitRecord {
    pub fn new(t: i64, p: Vec3, mat: Material, outward_normal: Vec3, ray: &Ray) -> (rec:
        HitRecord)
        requires
            outward_normal.in_range(NORMAL_LIMIT as int),
            ray.dir.in_range(DIR_LIMIT as int),
        ensures
            rec == spec_hit_record(t, p, mat, outward_normal, *ray),
    {
        proof {
            lemma_dot3_bound(ray.dir, outward_normal, DIR_LIMIT as int, NORMAL_LIMIT as int);
        }
        let front_face: bool = ray.direction().dot(outward_normal) < 0;
        let normal: Vec3 = if front_face {
            outward_normal
        } else {
            outward_normal.neg()
        };
        HitRecord { t, p, mat, normal, front_face }
    }
}

/// The oriented normal of a freshly built record never points with the
/// incident ray: its fixed-point dot product with the ray direction is at
/// most zero, and strictly negative whenever the ray is not exactly tangent
/// to the surface (`dot_raw != 0`).
pub proof fn lemma_hit_record_normal(t: i64, p: Vec3, mat: Material, outward: Vec3, ray: Ray)
    requires
        outward.in_range(NORMAL_LIMIT as int),
        ray.dir.in_range(DIR_LIMIT as int),
    ensures
        dot3(spec_hit_record(t, p, mat, outward, ray).normal, ray.dir) <= 0,
        dot_raw(outward, ray.dir) != 0 ==> dot3(
            spec_hit_record(t, p, mat, outward, ray).normal,
            ray.dir,
        ) < 0,
{
    let rec = spec_hit_record(t, p, mat, outward, ray);
    let s = SCALE as int;
    assert(ray.dir.x * outward.x + ray.dir.y * outward.y + ray.dir.z * outward.z == outward.x
        * ray.dir.x + outward.y * ray.dir.y + outward.z * ray.dir.z) by (nonlinear_arith);
    assert(dot_raw(ray.dir, outward) == dot_raw(outward, ray.dir));
    if dot3(ray.dir, outward) < 0 {
        assert(rec.normal == outward);
        assert(dot3(rec.normal, ray.dir) == dot3(ray.dir, outward));
        assert(dot_raw(outward, ray.dir) != 0) by {
            if dot_raw(outward, ray.dir) == 0 {
                assert(fdiv(0int, s) == 0);
            }
        };
    } else {
        // The flipped normal negates every product term exactly.
        assert(rec.normal.x == -outward.x && rec.normal.y == -outward.y && rec.normal.z
            == -outward.z);
        assert((-outward.x) * ray.dir.x + (-outward.y) * ray.dir.y + (-outward.z) * ray.dir.z
            == -(outward.x * ray.dir.x + outward.y * ray.dir.y + outward.z * ray.dir.z))
            by (nonlinear_arith);
        assert(dot_raw(rec.normal, ray.dir) == -dot_raw(ray.dir, outward));
        assert(dot_raw(ray.dir, outward) >= 0) by {
            if dot_raw(ray.dir, outward) < 0 {
                lemma_neg_div_neg(dot_raw(ray.dir, outward), s);
            }
        };
        if dot_raw(ray.dir, outward) == 0 {
            assert(fdiv(0int, s) == 0);
        } else {
            lemma_neg_div_neg(-dot_raw(ray.dir, outward), s);
        }
    }
}

/// Floor division keeps the sign of a negative dividend.
proof fn lemma_neg_div_neg(x: int, d: int)
    requires
        x < 0,
        d >= 1,
    ensures
        fdiv(x, d) < 0,
{
    lemma_div_is_ordered(x, -1, d);
    assert((-1int) / d <= -1) by (nonlinear_arith)
        requires
            d >= 1;
}

/// The closed set of primitives a scene may hold; intersection dispatches
/// through a single `match`.
#[derive(Debug, Clone, Copy, PartialEq, Eq, Structural)]
pub enum Primitive {
    Sphere(crate::sphere::Sphere),
    Disk(crate::disk::Disk),
}

impl Primitive {
    pub open spec fn wf(self) -> bool {
        match self {
            Primitive::Sphere(s) => s.wf(),
            Primitive::Disk(d) => d.wf(),
        }
    }

    /// The material bound to the primitive at construction.
    pub open spec fn spec_mat(self) -> Material {
        match self {
            Primitive::Sphere(s) => s.mat,
            Primitive::Disk(d) => d.mat,
        }
    }

    /// The exact meaning of [`Primitive::hit`], by variant.
    pub open spec fn spec_hit(self, ray: Ray, t_min: i64, t_max: i64) -> Option<HitRecord> {
        match self {
            Primitive::Sphere(s) => s.spec_hit(ray, t_min, t_max),
            Primitive::Disk(d) => d.spec_hit(ray, t_min, t_max),
        }
    }

    /// Runtime test of [`Primitive::wf`], for callers outside the verifier.
    pub fn is_well_formed(&self) -> (r: bool)
        ensures
            r == self.wf(),
    {
        match self {
            Primitive::Sphere(s) => s.center.in_range_exec(COORD_LIMIT) && 0 <= s.radius
                && s.radius <= COORD_LIMIT && s.mat.is_well_formed(),
            Primitive::Disk(d) => d.center.in_range_exec(COORD_LIMIT)
                && d.normal.in_range_exec(NORMAL_LIMIT) && 0 <= d.radius && d.radius
                <= COORD_LIMIT && d.mat.is_well_formed(),
        }
    }

    /// Nearest intersection of `ray` with the primitive in `[t_min, t_max)`.
    pub fn hit(&self, ray: &Ray, t_min: i64, t_max: i64) -> (res: Option<HitRecord>)
        requires
            self.wf(),
            wf_ray(*ray),
            0 < t_min,
            t_max <= T_LIMIT,
        ensures
            res == self.spec_hit(*ray, t_min, t_max),
            res matches Some(rec) ==> wf_hit_record(rec) && rec.mat == self.spec_mat()
                && rec.mat.wf() && t_min <= rec.t < t_max,
    {
        match self {
            Primitive::Sphere(s) => s.hit(ray, t_min, t_max),
            Primitive::Disk(d) => d.hit(ray, t_min, t_max),
        }
    }
}

/// A hit lies inside the search interval and carries the member's material.
pub proof fn lemma_prim_hit_in_range(p: Primitive, ray: Ray, t_min: i64, t_max: i64)
    ensures
        p.spec_hit(ray, t_min, t_max) matches Some(h) ==> t_min <= h.t < t_max && h.mat
            == p.spec_mat(),
{
    match p {
        Primitive::Sphere(s) => crate::sphere::lemma_sphere_hit_in_range(s, ray, t_min, t_max),
        Primitive::Disk(d) => crate::disk::lemma_disk_hit_in_range(d, ray, t_min, t_max),
    }
}

/// Shrinking the upper end of the interval past a found hit does not change
/// the hit.
pub proof fn lemma_prim_hit_narrow(p: Primitive, ray: Ray, t_min: i64, tmax1: i64, tmax2: i64)
    requires
        tmax2 <= tmax1,
        p.spec_hit(ray, t_min, tmax1) matches Some(h) && h.t < tmax2,
    ensures
        p.spec_hit(ray, t_min, tmax2) == p.spec_hit(ray, t_min, tmax1),
{
    match p {
        Primitive::Sphere(s) => crate::sphere::lemma_sphere_hit_narrow(
            s,
            ray,
            t_min,
            tmax1,
            tmax2,
        ),
        Primitive::Disk(d) => crate::disk::lemma_disk_hit_narrow(d, ray, t_min, tmax1, tmax2),
    }
}

/// Widening the interval can only move the hit farther out, never nearer.
pub proof fn lemma_prim_hit_widen(p: Primitive, ray: Ray, t_min: i64, tmax1: i64, tmax2: i64)
    requires
        tmax1 <= tmax2,
        p.spec_hit(ray, t_min, tmax1) matches Some(h),
    ensures
        p.spec_hit(ray, t_min, tmax2) matches Some(hw) ==> hw.t
            >= p.spec_hit(ray, t_min, tmax1)->Some_0.t,
{
    match p {
        Primitive::Sphere(s) => crate::sphere::lemma_sphere_hit_widen(s, ray, t_min, tmax1, tmax2),
        Primitive::Disk(d) => crate::disk::lemma_disk_hit_widen(d, ray, t_min, tmax1, tmax2),
    }
}

} // verus!
