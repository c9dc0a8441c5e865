//! The parametric line primitive.
use vstd::prelude::*;
use crate::vec3::Vec3;
use crate::fixed::fmul;

verus! {

#[derive(Debug, Clone, Copy, PartialEq, Eq, Structural)]
pub struct Ray {
    pub orig: Vec3,
    pub dir: Vec3,
}

/// The point at parameter `t` along the ray: `orig + t * dir`, in fixed point.
pub open spec fn spec_at(r: Ray, t: int) -> Vec3 {
    Vec3 {
        x: (r.orig.x + fmul(t, r.dir.x as int)) as i64,
        y: (r.orig.y + fmul(t, r.dir.y as int)) as i64,
        z: (r.orig.z + fmul(t, r.dir.z as int)) as i64,
    }
}

impl Ray {
    pub fn new(orig: Vec3, dir: Vec3) -> (r: Ray)
        ensures
            r == (Ray { orig, dir }),
    {
        Ray { orig, dir }
    }

    pub fn origin(&self) -> (r: Vec3)
        ensures
            r == self.orig,
    {
        self.orig
    }

    pub fn direction(&self) -> (r: Vec3)
        ensures
            r == self.dir,
    {
        self.dir
    }

    /// Evaluate the ray at parameter `t`.
    pub fn at(&self, t: i64) -> (r: Vec3)
        requires
            i64::MIN <= fmul(t as int, self.dir.x as int) <= i64::MAX,
            i64::MIN <= fmul(t as int, self.dir.y as int) <= i64::MAX,
            i64::MIN <= fmul(t as int, self.dir.z as int) <= i64::MAX,
            i64::MIN <= self.orig.x + fmul(t as int, self.dir.x as int) <= i64::MAX,
            i64::MIN <= self.orig.y + fmul(t as int, self.dir.y as int) <= i64::MAX,
            i64::MIN <= self.orig.z + fmul(t as int, self.dir.z as int) <= i64::MAX,
        ensures
            r == spec_at(*self, t as int),
            r.x == self.orig.x + fmul(t as int, self.dir.x as int),
            r.y == self.orig.y + fmul(t as int, self.dir.y as int),
            r.z == self.orig.z + fmul(t as int, self.dir.z as int),
    {
        let step: Vec3 = self.dir.scale(t);
        proof {
            crate::fixed::lemma_fmul_comm(t as int, self.dir.x as int);
            crate::fixed::lemma_fmul_comm(t as int, self.dir.y as int);
            crate::fixed::lemma_fmul_comm(t as int, self.dir.z as int);
        }
        self.orig.add(step)
    }
}

} // verus!
