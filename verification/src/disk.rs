//! Disk intersection.
//!
//! A disk is a plane patch: intersect the ray with the plane through the
//! center normal to `normal`, then reject points farther from the center
//! than the radius (compared as squared distances, avoiding a square root).
//! A ray parallel to the plane (`denom == 0` at this resolution) is a miss:
//! degenerate input is rejected rather than divided by.
use vstd::prelude::*;
use crate::vec3::{Vec3, dot3, lemma_dot3_bound, lemma_prod_bound, lemma_prod_bound2,
    lemma_fdiv_quot_mag};
use crate::ray::{Ray, spec_at};
use crate::hittable::{HitRecord, spec_hit_record, wf_hit_record, wf_ray, COORD_LIMIT,
    POINT_LIMIT, NORMAL_LIMIT, DIR_LIMIT, T_LIMIT};
use crate::material::Material;
use crate::fixed::{SCALE, fmul, fquot, fx_div, lemma_fdiv_mag, lemma_fdiv_bound};

verus! {

#[derive(Debug, Clone, Copy, PartialEq, Eq, Structural)]
pub struct Disk {
    pub center: Vec3,
    pub normal: Vec3,
    pub radius: i64,
    pub mat: Material,
}

impl Disk {
    /// Geometry within scene bounds: the normal is expected unit length (the
    /// bound allows rounding slack), with a valid material.
    pub open spec fn wf(self) -> bool {
        &&& self.center.in_range(COORD_LIMIT as int)
        &&& self.normal.in_range(NORMAL_LIMIT as int)
        &&& 0 <= self.radius <= COORD_LIMIT
        &&& self.mat.wf()
    }

    /// A negative radius is floored to zero.
    pub fn new(center: Vec3, normal: Vec3, radius: i64, mat: Material) -> (r: Disk)
        ensures
            r.center == center,
            r.normal == normal,
            r.radius == if radius >= 0 { radius as int } else { 0 },
            r.mat == mat,
    {
        Disk { center, normal, radius: if radius >= 0 { radius } else { 0 }, mat }
    }

    /// The exact meaning of [`Disk::hit`]: solve
    /// `t = (normal.center - normal.origin) / (normal.direction)`, reject a
    /// parallel ray, an out-of-interval parameter, a degenerate point, or a
    /// point outside the radius.
    pub open spec fn spec_hit(self, ray: Ray, t_min: i64, t_max: i64) -> Option<HitRecord> {
        let d_plane = dot3(self.normal, self.center);
        let denom = dot3(self.normal, ray.dir);
        if denom == 0 {
            None
        } else {
            let tq = fquot(d_plane - dot3(self.normal, ray.orig), denom);
            if !(t_min <= tq && tq < t_max) {
                None
            } else {
                let p = spec_at(ray, tq);
                if !p.in_range(POINT_LIMIT as int) {
                    None
                } else {
                    let diff = Vec3 {
                        x: (p.x - self.center.x) as i64,
                        y: (p.y - self.center.y) as i64,
                        z: (p.z - self.center.z) as i64,
                    };
                    if dot3(diff, diff) > fmul(self.radius as int, self.radius as int) {
                        None
                    } else {
                        Some(spec_hit_record(tq as i64, p, self.mat, self.normal, ray))
                    }
                }
            }
        }
    }

    /// Intersection of `ray` with the disk within `[t_min, t_max)`.
    pub fn hit(&self, ray: &Ray, t_min: i64, t_max: i64) -> (res: Option<HitRecord>)
        requires
            self.wf(),
            wf_ray(*ray),
            0 < t_min,
            t_max <= T_LIMIT,
        ensures
            res == self.spec_hit(*ray, t_min, t_max),
            res matches Some(rec) ==> wf_hit_record(rec) && rec.mat == self.mat && t_min
                <= rec.t < t_max,
    {
        proof {
            lemma_dot3_bound(self.normal, self.center, NORMAL_LIMIT as int, COORD_LIMIT as int);
            lemma_dot3_bound(self.normal, ray.dir, NORMAL_LIMIT as int, DIR_LIMIT as int);
            lemma_dot3_bound(self.normal, ray.orig, NORMAL_LIMIT as int, 0x1000_0000);
        }
        let d_plane: i64 = self.normal.dot(self.center);
        let denom: i64 = self.normal.dot(ray.direction());
        if denom == 0 {
            return None;
        }
        let num: i64 = d_plane - self.normal.dot(ray.origin());
        proof {
            lemma_prod_bound2(num as int, SCALE as int, 0x400_0000_0000, 0x10000);
            lemma_fdiv_mag(num as int * SCALE as int, denom as int,
                0x400_0000_0000int * 0x10000int);
        }
        let tq: i64 = fx_div(num, denom);
        if !(t_min <= tq && tq < t_max) {
            return None;
        }
        proof {
            lemma_prod_bound2(tq as int, ray.dir.x as int, T_LIMIT as int, DIR_LIMIT as int);
            lemma_prod_bound2(tq as int, ray.dir.y as int, T_LIMIT as int, DIR_LIMIT as int);
            lemma_prod_bound2(tq as int, ray.dir.z as int, T_LIMIT as int, DIR_LIMIT as int);
            lemma_fdiv_bound(tq as int * ray.dir.x as int, SCALE as int, 0x40_0000_0000_0000);
            lemma_fdiv_bound(tq as int * ray.dir.y as int, SCALE as int, 0x40_0000_0000_0000);
            lemma_fdiv_bound(tq as int * ray.dir.z as int, SCALE as int, 0x40_0000_0000_0000);
        }
        let p: Vec3 = ray.at(tq);
        if !(p.in_range_exec(POINT_LIMIT)) {
            return None;
        }
        let diff: Vec3 = p.sub(self.center);
        proof {
            lemma_dot3_bound(diff, diff, 0xC00_0000, 0xC00_0000);
            lemma_prod_bound(self.radius as int, self.radius as int, COORD_LIMIT as int);
            lemma_fdiv_quot_mag(self.radius as int * self.radius as int, SCALE as int,
                0x10_0000_0000_0000);
        }
        let dist_sq: i64 = diff.norm_squared();
        let rad_sq: i64 = crate::fixed::fx_mul(self.radius, self.radius);
        if dist_sq > rad_sq {
            return None;
        }
        Some(HitRecord::new(tq, p, self.mat, self.normal, ray))
    }
}

/// A hit lies inside the search interval, is well formed, and carries the
/// disk's material.
pub proof fn lemma_disk_hit_in_range(d: Disk, ray: Ray, t_min: i64, t_max: i64)
    ensures
        d.spec_hit(ray, t_min, t_max) matches Some(h) ==> t_min <= h.t < t_max && h.mat
            == d.mat,
{
}

/// Shrinking the upper end of the interval past a found hit does not change
/// the hit.
pub proof fn lemma_disk_hit_narrow(d: Disk, ray: Ray, t_min: i64, tmax1: i64, tmax2: i64)
    requires
        tmax2 <= tmax1,
        d.spec_hit(ray, t_min, tmax1) matches Some(h) && h.t < tmax2,
    ensures
        d.spec_hit(ray, t_min, tmax2) == d.spec_hit(ray, t_min, tmax1),
{
}

/// Widening the interval can only move the hit farther out, never nearer.
pub proof fn lemma_disk_hit_widen(d: Disk, ray: Ray, t_min: i64, tmax1: i64, tmax2: i64)
    requires
        tmax1 <= tmax2,
        d.spec_hit(ray, t_min, tmax1) matches Some(h),
    ensures
        d.spec_hit(ray, t_min, tmax2) matches Some(hw) ==> hw.t
            >= d.spec_hit(ray, t_min, tmax1)->Some_0.t,
{
}

} // verus!
