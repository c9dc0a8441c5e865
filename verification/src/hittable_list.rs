//! The composite scene: an ordered collection of primitives.
//!
//! Intersection is a deliberate linear scan that narrows the upper end of
//! the search interval to the nearest hit found so far, so a later member
//! can only replace the current hit with a strictly nearer one. The public
//! lemma [`lemma_scene_hit_nearest`] states the resulting law: whenever any
//! member hits within the interval, the scan returns a hit, and it is no
//! farther than any member's own hit.
use vstd::prelude::*;
use crate::hittable::{HitRecord, Primitive, wf_hit_record, wf_ray, T_LIMIT,
    lemma_prim_hit_in_range, lemma_prim_hit_narrow, lemma_prim_hit_widen};
use crate::ray::Ray;

verus! {

pub struct HittableList {
    pub objects: Vec<Primitive>,
}

/// The state of the scan after the members before `i` have been queried:
/// `best` is the nearest hit so far and `cur_max` the narrowed upper end.
pub open spec fn spec_hit_from(
    objects: Seq<Primitive>,
    i: int,
    ray: Ray,
    t_min: i64,
    cur_max: i64,
    best: Option<HitRecord>,
) -> Option<HitRecord>
    decreases objects.len() - i,
{
    if i < 0 || i >= objects.len() {
        best
    } else {
        match objects[i].spec_hit(ray, t_min, cur_max) {
            Some(h) => spec_hit_from(objects, i + 1, ray, t_min, h.t, Some(h)),
            None => spec_hit_from(objects, i + 1, ray, t_min, cur_max, best),
        }
    }
}

impl HittableList {
    /// Every member is within the library's geometric bounds.
    pub open spec fn wf(self) -> bool {
        forall|i: int| 0 <= i < self.objects@.len() ==> (#[trigger] self.objects@[i]).wf()
    }

    /// The exact meaning of [`HittableList::hit`]: scan every member in
    /// order, keeping the nearest hit.
    pub open spec fn spec_hit(self, ray: Ray, t_min: i64, t_max: i64) -> Option<HitRecord> {
        spec_hit_from(self.objects@, 0, ray, t_min, t_max, None)
    }

    pub fn from_vec(objects: Vec<Primitive>) -> (r: HittableList)
        ensures
            r.objects@ == objects@,
    {
        HittableList { objects }
    }

    pub fn new() -> (r: HittableList)
        ensures
            r.objects@.len() == 0,
    {
        HittableList { objects: Vec::new() }
    }

    pub fn push(&mut self, object: Primitive)
        ensures
            final(self).objects@ == old(self).objects@.push(object),
    {
        self.objects.push(object);
    }

    pub fn clear(&mut self)
        ensures
            final(self).objects@.len() == 0,
    {
        self.objects.clear();
    }

    /// Runtime test of [`HittableList::wf`], for callers outside the
    /// verifier.
    pub fn is_well_formed(&self) -> (r: bool)
        ensures
            r == self.wf(),
    {
        let n: usize = self.objects.len();
        let mut i: usize = 0;
        while i < n
            invariant
                0 <= i <= n,
                n == self.objects@.len(),
                forall|j: int| 0 <= j < i ==> (#[trigger] self.objects@[j]).wf(),
            decreases n - i,
        {
            if !self.objects[i].is_well_formed() {
                return false;
            }
            i = i + 1;
        }
        true
    }

    /// Nearest intersection of `ray` with any member within
    /// `[t_min, t_max)`.
    pub fn hit(&self, ray: &Ray, t_min: i64, t_max: i64) -> (res: Option<HitRecord>)
        requires
            self.wf(),
            wf_ray(*ray),
            0 < t_min,
            t_max <= T_LIMIT,
        ensures
            res == self.spec_hit(*ray, t_min, t_max),
            res matches Some(rec) ==> wf_hit_record(rec) && rec.mat.wf() && t_min <= rec.t
                < t_max,
    {
        let mut cur_max: i64 = t_max;
        let mut best: Option<HitRecord> = None;
        let n: usize = self.objects.len();
        let mut i: usize = 0;
        while i < n
            invariant
                0 <= i <= n,
                n == self.objects@.len(),
                self.wf(),
                wf_ray(*ray),
                0 < t_min,
                t_max <= T_LIMIT,
                cur_max <= t_max,
                match best {
                    Some(b) => b.t == cur_max && wf_hit_record(b) && b.mat.wf() && t_min
                        <= b.t < t_max,
                    None => cur_max == t_max,
                },
                spec_hit_from(self.objects@, i as int, *ray, t_min, cur_max, best)
                    == self.spec_hit(*ray, t_min, t_max),
            decreases n - i,
        {
            let member: &Primitive = &self.objects[i];
            match member.hit(ray, t_min, cur_max) {
                Some(h) => {
                    cur_max = h.t;
                    best = Some(h);
                },
                None => {},
            }
            i = i + 1;
        }
        best
    }
}

impl Default for HittableList {
    fn default() -> (r: HittableList)
        ensures
            r.objects@.len() == 0,
    {
        HittableList::new()
    }
}

/// The scan from position `i` returns a hit no farther than the running best
/// and no farther than any later member's own hit over the full interval.
proof fn lemma_hit_from_nearest(
    objects: Seq<Primitive>,
    i: int,
    ray: Ray,
    t_min: i64,
    cur_max: i64,
    best: Option<HitRecord>,
    t_max: i64,
)
    requires
        0 <= i <= objects.len(),
        0 < t_min,
        t_min <= cur_max <= t_max <= T_LIMIT,
        match best {
            Some(b) => b.t == cur_max,
            None => cur_max == t_max,
        },
    ensures
        best matches Some(b) ==> spec_hit_from(objects, i, ray, t_min, cur_max, best)
            matches Some(r) && r.t <= b.t,
        forall|j: int|
            i <= j < objects.len() ==> match #[trigger] objects[j].spec_hit(
                ray,
                t_min,
                t_max,
            ) {
                Some(hj) => spec_hit_from(objects, i, ray, t_min, cur_max, best) matches Some(
                    r,
                ) && r.t <= hj.t,
                None => true,
            },
    decreases objects.len() - i,
{
    if i >= objects.len() {
        // The scan is finished: the result is the running best.
    } else {
        let cur = objects[i].spec_hit(ray, t_min, cur_max);
        let full = objects[i].spec_hit(ray, t_min, t_max);
        lemma_prim_hit_in_range(objects[i], ray, t_min, cur_max);
        lemma_prim_hit_in_range(objects[i], ray, t_min, t_max);
        match cur {
            Some(h) => {
                lemma_hit_from_nearest(objects, i + 1, ray, t_min, h.t, Some(h), t_max);
                lemma_prim_hit_widen(objects[i], ray, t_min, cur_max, t_max);
                let res = spec_hit_from(objects, i, ray, t_min, cur_max, best);
                assert(res == spec_hit_from(objects, i + 1, ray, t_min, h.t, Some(h)));
                assert(res matches Some(r) && r.t <= h.t);
            },
            None => {
                lemma_hit_from_nearest(objects, i + 1, ray, t_min, cur_max, best, t_max);
                let res = spec_hit_from(objects, i, ray, t_min, cur_max, best);
                assert(res == spec_hit_from(objects, i + 1, ray, t_min, cur_max, best));
                match full {
                    Some(hf) => {
                        // A full-interval hit nearer than the narrowed end
                        // would have been found; so it is no nearer.
                        if hf.t < cur_max {
                            lemma_prim_hit_narrow(objects[i], ray, t_min, t_max, cur_max);
                            assert(false);
                        }
                        assert(hf.t >= cur_max);
                    },
                    None => {},
                }
            },
        }
    }
}

/// In a scene holding several primitives along the ray's path, the scan
/// returns the hit with the smallest parameter: whenever a member hits
/// within the interval, the scene's result exists and is no farther than
/// that member's own hit. Shrinking the interval to the nearest hit found so
/// far never admits a farther hit in place of a nearer one.
pub proof fn lemma_scene_hit_nearest(scene: HittableList, ray: Ray, t_min: i64, t_max: i64)
    requires
        0 < t_min,
        t_min <= t_max <= T_LIMIT,
    ensures
        forall|j: int|
            0 <= j < scene.objects@.len() ==> match #[trigger] scene.objects@[j].spec_hit(
                ray,
                t_min,
                t_max,
            ) {
                Some(hj) => scene.spec_hit(ray, t_min, t_max) matches Some(r) && r.t <= hj.t,
                None => true,
            },
{
    lemma_hit_from_nearest(scene.objects@, 0, ray, t_min, t_max, None, t_max);
}

} // verus!
