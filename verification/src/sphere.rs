//! Sphere intersection.
//!
//! The quadratic `|O + tD - C|^2 = r^2` is solved through its fixed-point
//! half-coefficients; [`Sphere::spec_hit`] is the exact mathematical mirror
//! of the executable routine, and the contract of [`Sphere::hit`] is equality
//! with it. The mirror also fixes the miss policy for degenerate input: a
//! nonpositive radius, a zero direction, or an intersection whose point or
//! normal falls outside the library's fixed bounds is a miss.
use vstd::prelude::*;
use crate::vec3::{Vec3, dot3, dot_raw, lemma_dot3_bound, lemma_dot3_self_nonneg,
    lemma_prod_bound, lemma_prod_bound2, lemma_fdiv_quot_mag};
use crate::ray::{Ray, spec_at};
use crate::hittable::{HitRecord, spec_hit_record, wf_hit_record, wf_ray, COORD_LIMIT,
    POINT_LIMIT, NORMAL_LIMIT, DIR_LIMIT, ORIGIN_LIMIT, T_LIMIT};
use crate::material::Material;
use crate::fixed::{SCALE, fdiv, fmul, fquot, sqrt_floor, is_sqrt_floor, fx_div,
    isqrt_u128, div_floor_i128, lemma_sqrt_floor_unique, lemma_fdiv_bound};
use vstd::arithmetic::mul::lemma_mul_inequality;

verus! {

#[derive(Debug, Clone, Copy, PartialEq, Eq, Structural)]
pub struct Sphere {
    pub center: Vec3,
    pub radius: i64,
    pub mat: Material,
}

impl Sphere {
    /// Geometry within scene bounds, with a valid material.
    pub open spec fn wf(self) -> bool {
        &&& self.center.in_range(COORD_LIMIT as int)
        &&& 0 <= self.radius <= COORD_LIMIT
        &&& self.mat.wf()
    }

    /// A negative radius is floored to zero.
    pub fn new(center: Vec3, radius: i64, mat: Material) -> (r: Sphere)
        ensures
            r.center == center,
            r.radius == if radius >= 0 { radius as int } else { 0 },
            r.mat == mat,
    {
        Sphere { center, radius: if radius >= 0 { radius } else { 0 }, mat }
    }

    /// The exact meaning of [`Sphere::hit`]: solve the quadratic through the
    /// half-coefficients `a = |D|^2`, `h = D.(C-O)`, `c = |C-O|^2 - r^2`,
    /// with the discriminant formed un-floored at doubled scale; take the
    /// smaller root if it lies in `[t_min, t_max)`, else the larger; miss on
    /// a negative discriminant, an out-of-interval root, or a degenerate
    /// result.
    pub open spec fn spec_hit(self, ray: Ray, t_min: i64, t_max: i64) -> Option<HitRecord> {
        if self.radius <= 0 {
            None
        } else {
            let oc = Vec3 {
                x: (self.center.x - ray.orig.x) as i64,
                y: (self.center.y - ray.orig.y) as i64,
                z: (self.center.z - ray.orig.z) as i64,
            };
            let a = dot3(ray.dir, ray.dir);
            let h = dot3(oc, ray.dir);
            let c = dot3(oc, oc) - fmul(self.radius as int, self.radius as int);
            if a <= 0 {
                None
            } else {
                let e = h * h - a * c;
                if e < 0 {
                    None
                } else {
                    let sq = sqrt_floor(e);
                    let root1 = fdiv((h - sq) * SCALE as int, a);
                    let root2 = fdiv((h + sq) * SCALE as int, a);
                    let root = if t_min <= root1 && root1 < t_max {
                        root1
                    } else {
                        root2
                    };
                    if !(t_min <= root && root < t_max) {
                        None
                    } else {
                        let p = spec_at(ray, root);
                        if !p.in_range(POINT_LIMIT as int) {
                            None
                        } else {
                            let outward = Vec3 {
                                x: fquot(p.x - self.center.x, self.radius as int) as i64,
                                y: fquot(p.y - self.center.y, self.radius as int) as i64,
                                z: fquot(p.z - self.center.z, self.radius as int) as i64,
                            };
                            if !outward.in_range(NORMAL_LIMIT as int) {
                                None
                            } else {
                                Some(spec_hit_record(root as i64, p, self.mat, outward, ray))
                            }
                        }
                    }
                }
            }
        }
    }

    /// Nearest intersection of `ray` with the sphere within `[t_min, t_max)`.
    pub fn hit(&self, ray: &Ray, t_min: i64, t_max: i64) -> (res: Option<HitRecord>)
        requires
            self.wf(),
            wf_ray(*ray),
            0 < t_min,
            t_max <= T_LIMIT,
        ensures
            res == self.spec_hit(*ray, t_min, t_max),
            res matches Some(rec) ==> wf_hit_record(rec) && rec.mat == self.mat && t_min
                <= rec.t < t_max,
    {
        if self.radius <= 0 {
            return None;
        }
        let oc: Vec3 = self.center.sub(ray.origin());
        proof {
            lemma_dot3_self_nonneg(ray.dir);
            lemma_dot3_bound(ray.dir, ray.dir, DIR_LIMIT as int, DIR_LIMIT as int);
            lemma_dot3_bound(oc, ray.dir, 0x1400_0000, DIR_LIMIT as int);
            lemma_dot3_bound(oc, oc, 0x1400_0000, 0x1400_0000);
            lemma_prod_bound(self.radius as int, self.radius as int, COORD_LIMIT as int);
            lemma_fdiv_quot_mag(
                self.radius as int * self.radius as int,
                SCALE as int,
                0x10_0000_0000_0000,
            );
        }
        let a: i64 = ray.direction().norm_squared();
        let h: i64 = oc.dot(ray.direction());
        let c: i64 = oc.norm_squared() - fx_mul_radius_sq(self.radius);
        if a <= 0 {
            return None;
        }
        proof {
            lemma_prod_bound(h as int, h as int, 0x1000_0000_0000_0000);
            lemma_prod_bound(a as int, c as int, 0x1000_0000_0000_0000);
        }
        let e: i128 = (h as i128) * (h as i128) - (a as i128) * (c as i128);
        if e < 0 {
            return None;
        }
        let sq_u: u128 = isqrt_u128(e as u128);
        proof {
            assert(sq_u as int <= 0x2000_0000_0000_0000) by {
                if sq_u as int > 0x2000_0000_0000_0000 {
                    lemma_mul_inequality(
                        0x2000_0000_0000_0001,
                        sq_u as int,
                        0x2000_0000_0000_0001,
                    );
                    vstd::arithmetic::mul::lemma_mul_is_commutative(
                        sq_u as int,
                        0x2000_0000_0000_0001,
                    );
                    lemma_mul_inequality(0x2000_0000_0000_0001, sq_u as int, sq_u as int);
                }
            };
            lemma_sqrt_floor_unique(e as int, sq_u as int);
        }
        let sq: i64 = sq_u as i64;
        let num1: i128 = ((h as i128) - (sq as i128)) * (SCALE as i128);
        let root1: i128 = div_floor_i128(num1, a as i128);
        let t_min_w: i128 = t_min as i128;
        let t_max_w: i128 = t_max as i128;
        let root: i128 = if t_min_w <= root1 && root1 < t_max_w {
            root1
        } else {
            let num2: i128 = ((h as i128) + (sq as i128)) * (SCALE as i128);
            div_floor_i128(num2, a as i128)
        };
        if !(t_min_w <= root && root < t_max_w) {
            return None;
        }
        let t: i64 = root as i64;
        proof {
            lemma_prod_bound2(t as int, ray.dir.x as int, T_LIMIT as int, DIR_LIMIT as int);
            lemma_prod_bound2(t as int, ray.dir.y as int, T_LIMIT as int, DIR_LIMIT as int);
            lemma_prod_bound2(t as int, ray.dir.z as int, T_LIMIT as int, DIR_LIMIT as int);
            lemma_fdiv_bound(t as int * ray.dir.x as int, SCALE as int, 0x40_0000_0000_0000);
            lemma_fdiv_bound(t as int * ray.dir.y as int, SCALE as int, 0x40_0000_0000_0000);
            lemma_fdiv_bound(t as int * ray.dir.z as int, SCALE as int, 0x40_0000_0000_0000);
        }
        let p: Vec3 = ray.at(t);
        if !(p.in_range_exec(POINT_LIMIT)) {
            return None;
        }
        let delta: Vec3 = p.sub(self.center);
        proof {
            lemma_prod_bound2(delta.x as int, SCALE as int, 0xC00_0000, 0x10000);
            lemma_prod_bound2(delta.y as int, SCALE as int, 0xC00_0000, 0x10000);
            lemma_prod_bound2(delta.z as int, SCALE as int, 0xC00_0000, 0x10000);
            lemma_fdiv_quot_mag(delta.x as int * SCALE as int, self.radius as int,
                0xC00_0000int * 0x10000int);
            lemma_fdiv_quot_mag(delta.y as int * SCALE as int, self.radius as int,
                0xC00_0000int * 0x10000int);
            lemma_fdiv_quot_mag(delta.z as int * SCALE as int, self.radius as int,
                0xC00_0000int * 0x10000int);
        }
        let outward: Vec3 = Vec3 {
            x: fx_div(delta.x, self.radius),
            y: fx_div(delta.y, self.radius),
            z: fx_div(delta.z, self.radius),
        };
        if !(outward.in_range_exec(NORMAL_LIMIT)) {
            return None;
        }
        Some(HitRecord::new(t, p, self.mat, outward, ray))
    }
}

/// For every ray and sphere, a returned record's oriented normal points
/// against the ray: the fixed-point dot product of record normal and ray
/// direction is never positive, and is strictly negative unless the ray is
/// exactly tangent to the surface (zero raw dot product).
pub proof fn lemma_sphere_hit_normal(s: Sphere, ray: Ray, t_min: i64, t_max: i64)
    requires
        ray.dir.in_range(DIR_LIMIT as int),
    ensures
        s.spec_hit(ray, t_min, t_max) matches Some(rec) ==> dot3(rec.normal, ray.dir) <= 0
            && (dot_raw(rec.normal, ray.dir) != 0 ==> dot3(rec.normal, ray.dir) < 0),
{
    if s.spec_hit(ray, t_min, t_max) is Some {
        let rec = s.spec_hit(ray, t_min, t_max)->Some_0;
        let oc = Vec3 {
            x: (s.center.x - ray.orig.x) as i64,
            y: (s.center.y - ray.orig.y) as i64,
            z: (s.center.z - ray.orig.z) as i64,
        };
        let a = dot3(ray.dir, ray.dir);
        let h = dot3(oc, ray.dir);
        let c = dot3(oc, oc) - fmul(s.radius as int, s.radius as int);
        let e = h * h - a * c;
        let sq = sqrt_floor(e);
        let root1 = fdiv((h - sq) * SCALE as int, a);
        let root2 = fdiv((h + sq) * SCALE as int, a);
        let root = if t_min <= root1 && root1 < t_max {
            root1
        } else {
            root2
        };
        let p = spec_at(ray, root);
        let outward = Vec3 {
            x: fquot(p.x - s.center.x, s.radius as int) as i64,
            y: fquot(p.y - s.center.y, s.radius as int) as i64,
            z: fquot(p.z - s.center.z, s.radius as int) as i64,
        };
        assert(rec == spec_hit_record(root as i64, p, s.mat, outward, ray));
        assert(outward.in_range(NORMAL_LIMIT as int));
        crate::hittable::lemma_hit_record_normal(root as i64, p, s.mat, outward, ray);
        if !(dot3(ray.dir, outward) < 0) {
            assert((-outward.x) * ray.dir.x + (-outward.y) * ray.dir.y + (-outward.z)
                * ray.dir.z == -(outward.x * ray.dir.x + outward.y * ray.dir.y + outward.z
                * ray.dir.z)) by (nonlinear_arith);
            assert(dot_raw(rec.normal, ray.dir) == -dot_raw(outward, ray.dir));
            assert(dot_raw(outward, ray.dir) == dot_raw(ray.dir, outward))
                by (nonlinear_arith);
        }
    }
}

/// A hit lies inside the search interval, is well formed, and carries the
/// sphere's material.
pub proof fn lemma_sphere_hit_in_range(s: Sphere, ray: Ray, t_min: i64, t_max: i64)
    ensures
        s.spec_hit(ray, t_min, t_max) matches Some(h) ==> t_min <= h.t < t_max && h.mat
            == s.mat,
{
}

/// Shrinking the upper end of the interval past a found hit does not change
/// the hit: narrowing never admits a farther intersection in place of a
/// nearer one.
pub proof fn lemma_sphere_hit_narrow(s: Sphere, ray: Ray, t_min: i64, tmax1: i64, tmax2: i64)
    requires
        tmax2 <= tmax1,
        s.spec_hit(ray, t_min, tmax1) matches Some(h) && h.t < tmax2,
    ensures
        s.spec_hit(ray, t_min, tmax2) == s.spec_hit(ray, t_min, tmax1),
{
}

/// Widening the interval can only move the hit farther out, never nearer.
pub proof fn lemma_sphere_hit_widen(s: Sphere, ray: Ray, t_min: i64, tmax1: i64, tmax2: i64)
    requires
        tmax1 <= tmax2,
        s.spec_hit(ray, t_min, tmax1) matches Some(h),
    ensures
        s.spec_hit(ray, t_min, tmax2) matches Some(hw) ==> hw.t
            >= s.spec_hit(ray, t_min, tmax1)->Some_0.t,
{
}

/// The fixed-point square of a radius; kept separate so the intersection body
/// reads like the quadratic it solves.
fn fx_mul_radius_sq(radius: i64) -> (r: i64)
    requires
        0 <= radius <= COORD_LIMIT,
    ensures
        r == fmul(radius as int, radius as int),
{
    proof {
        lemma_prod_bound(radius as int, radius as int, COORD_LIMIT as int);
        lemma_fdiv_quot_mag(radius as int * radius as int, SCALE as int, 0x10_0000_0000_0000);
    }
    crate::fixed::fx_mul(radius, radius)
}

} // verus!
