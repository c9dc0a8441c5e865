//! A stochastic recursive ray tracer over fixed-point arithmetic.
//!
//! Geometry, materials, camera and the light-transport integrator all work
//! on scaled 64-bit integers (see [`fixed`]), so every step of the rendering
//! pipeline has an exact mathematical meaning that the contracts state and
//! the verifier checks. Randomness is explicit: a seeded generator
//! ([`rng::Rng`]) is threaded through all sampling code, which keeps renders
//! reproducible.
use vstd::prelude::*;

pub mod fixed;
pub mod vec3;
pub mod rng;
pub mod ray;
pub mod color;
pub mod hittable;
pub mod material;
pub mod sphere;
pub mod disk;
pub mod hittable_list;
pub mod approx;
pub mod camera;

pub use ray::Ray;
pub use vec3::Vec3;

use crate::fixed::{SCALE, fmul, sqrt_floor};
use crate::vec3::{dot3, dot_raw, spec_normalize, lemma_dot3_bound, lemma_prod_bound2,
    lemma_dot3_self_nonneg};
use crate::fixed::{lemma_fdiv_bound, lemma_fmul_comm};
use crate::rng::{Rng, next_state, unit_draw};
use crate::hittable::NORMAL_LIMIT;

verus! {

/// Alias kept for readability: a point is a displacement from the origin.
pub type Point3 = crate::vec3::Vec3;

/// One uniform draw from `[lo, hi]` together with the state it leaves.
pub open spec fn spec_component_in(s: u64, lo: int, hi: int) -> (int, u64) {
    let s2 = next_state(s);
    (lo + fmul(hi - lo, unit_draw(s2)), s2)
}

/// Three uniform draws from `[lo, hi]` together with the state they leave.
pub open spec fn spec_vec3_in(s: u64, lo: int, hi: int) -> (Vec3, u64) {
    let dx = spec_component_in(s, lo, hi);
    let dy = spec_component_in(dx.1, lo, hi);
    let dz = spec_component_in(dy.1, lo, hi);
    (Vec3 { x: dx.0 as i64, y: dy.0 as i64, z: dz.0 as i64 }, dz.1)
}

/// The rejection sampler behind [`random_unit_vec3`], as a function of the
/// generator state: draw from the cube and normalize the first draw whose
/// squared norm lands in `(0, 1]`; after `fuel` failed draws, a fixed unit
/// vector.
pub open spec fn spec_unit_vec3_from(s: u64, fuel: nat) -> (Vec3, u64)
    decreases fuel,
{
    if fuel == 0 {
        (Vec3 { x: SCALE, y: 0i64, z: 0i64 }, s)
    } else {
        let d = spec_vec3_in(s, -SCALE as int, SCALE as int);
        let nsq = dot3(d.0, d.0);
        if 1 <= nsq <= SCALE {
            (spec_normalize(d.0), d.1)
        } else {
            spec_unit_vec3_from(d.1, (fuel - 1) as nat)
        }
    }
}

/// What [`random_unit_vec3`] returns and the state it leaves.
pub open spec fn spec_unit_vec3(s: u64) -> (Vec3, u64) {
    spec_unit_vec3_from(s, 64)
}

/// The rejection sampler behind [`random_vec3_in_unit_disk`], as a function
/// of the generator state.
pub open spec fn spec_disk_vec3_from(s: u64, fuel: nat) -> (Vec3, u64)
    decreases fuel,
{
    if fuel == 0 {
        (Vec3 { x: 0i64, y: 0i64, z: 0i64 }, s)
    } else {
        let s1 = next_state(s);
        let s2 = next_state(s1);
        let v = Vec3 {
            x: (2 * unit_draw(s1) - SCALE as int) as i64,
            y: (2 * unit_draw(s2) - SCALE as int) as i64,
            z: 0i64,
        };
        if dot3(v, v) <= SCALE {
            (v, s2)
        } else {
            spec_disk_vec3_from(s2, (fuel - 1) as nat)
        }
    }
}

/// What [`random_vec3_in_unit_disk`] returns and the state it leaves.
pub open spec fn spec_disk_vec3(s: u64) -> (Vec3, u64) {
    spec_disk_vec3_from(s, 64)
}

/// What [`random_vec3_on_hemisphere`] returns and the state it leaves: the
/// unit sample, negated when its raw dot product with the normal is not
/// positive.
pub open spec fn spec_on_hemisphere(s: u64, normal: Vec3) -> (Vec3, u64) {
    let d = spec_unit_vec3(s);
    let v = d.0;
    if dot_raw(v, normal) > 0 {
        (v, d.1)
    } else {
        (Vec3 { x: (-v.x) as i64, y: (-v.y) as i64, z: (-v.z) as i64 }, d.1)
    }
}

/// Three uniform draws from `[0, 1)` together with the state they leave.
pub open spec fn spec_vec3_01(s: u64) -> (Vec3, u64) {
    let s1 = next_state(s);
    let s2 = next_state(s1);
    let s3 = next_state(s2);
    (
        Vec3 { x: unit_draw(s1) as i64, y: unit_draw(s2) as i64, z: unit_draw(s3) as i64 },
        s3,
    )
}

/// A vector with each component drawn uniformly from `[0, 1)`.
pub fn random_vec3(rng: &mut Rng) -> (r: Vec3)
    ensures
        0 <= r.x < SCALE,
        0 <= r.y < SCALE,
        0 <= r.z < SCALE,
        r == spec_vec3_01(old(rng)@).0,
        final(rng)@ == spec_vec3_01(old(rng)@).1,
{
    let x: i64 = rng.next_unit();
    let y: i64 = rng.next_unit();
    let z: i64 = rng.next_unit();
    Vec3 { x, y, z }
}

/// A vector with each component drawn uniformly from `[lo, hi]`.
pub fn random_vec3_in(rng: &mut Rng, lo: i64, hi: i64) -> (r: Vec3)
    requires
        -0x1000_0000 <= lo <= hi <= 0x1000_0000,
    ensures
        lo <= r.x <= hi,
        lo <= r.y <= hi,
        lo <= r.z <= hi,
        r == spec_vec3_in(old(rng)@, lo as int, hi as int).0,
        final(rng)@ == spec_vec3_in(old(rng)@, lo as int, hi as int).1,
{
    let x: i64 = random_component_in(rng, lo, hi);
    let y: i64 = random_component_in(rng, lo, hi);
    let z: i64 = random_component_in(rng, lo, hi);
    Vec3 { x, y, z }
}

/// One component drawn uniformly from `[lo, hi]`.
fn random_component_in(rng: &mut Rng, lo: i64, hi: i64) -> (r: i64)
    requires
        -0x1000_0000 <= lo <= hi <= 0x1000_0000,
    ensures
        lo <= r <= hi,
        r == spec_component_in(old(rng)@, lo as int, hi as int).0,
        final(rng)@ == spec_component_in(old(rng)@, lo as int, hi as int).1,
{
    let u: i64 = rng.next_unit();
    proof {
        lemma_prod_bound2(hi as int - lo as int, u as int, 0x2000_0000, 0x10000);
        lemma_fdiv_bound((hi as int - lo as int) * u as int, SCALE as int, 0x2000_0000);
        assert(fmul(hi as int - lo as int, u as int) <= hi as int - lo as int) by {
            assert((hi as int - lo as int) * u as int <= (hi as int - lo as int)
                * SCALE as int && -((hi as int - lo as int) * SCALE as int) <= (hi as int
                - lo as int) * u as int) by (nonlinear_arith)
                requires
                    0 <= u as int <= SCALE as int && 0 <= hi as int - lo as int;
            lemma_fdiv_bound(
                (hi as int - lo as int) * u as int,
                SCALE as int,
                hi as int - lo as int,
            );
        };
        assert(fmul(hi as int - lo as int, u as int) >= 0) by {
            vstd::arithmetic::mul::lemma_mul_nonnegative(hi as int - lo as int, u as int);
            vstd::arithmetic::div_mod::lemma_div_pos_is_pos(
                (hi as int - lo as int) * u as int,
                SCALE as int,
            );
        };
    }
    lo + crate::fixed::fx_mul(hi - lo, u)
}

/// A vector of (approximately) unit length, sampled by rejection from the
/// cube and normalized; after a bounded number of failed draws a fixed unit
/// vector is returned so the function is total. The result and the state
/// left behind are exactly [`spec_unit_vec3`] of the entry state.
#[verifier::rlimit(100)]
#[verifier::loop_isolation(false)]
pub fn random_unit_vec3(rng: &mut Rng) -> (r: Vec3)
    ensures
        r.in_range(2 * SCALE as int),
        r == spec_unit_vec3(old(rng)@).0,
        final(rng)@ == spec_unit_vec3(old(rng)@).1,
{
    let ghost s0: u64 = rng@;
    let mut attempts: usize = 0;
    while attempts < 64
        invariant
            attempts <= 64,
            spec_unit_vec3_from(rng@, (64 - attempts) as nat) == spec_unit_vec3_from(s0, 64),
        decreases 64 - attempts,
    {
        let ghost s_it: u64 = rng@;
        let ghost fuel: nat = (64 - attempts) as nat;
        let v: Vec3 = random_vec3_in(rng, -SCALE, SCALE);
        proof {
            lemma_dot3_bound(v, v, SCALE as int, SCALE as int);
            assert(spec_vec3_in(s_it, -SCALE as int, SCALE as int).0 == v);
            assert(spec_unit_vec3_from(s_it, fuel) == if 1 <= dot3(v, v) <= SCALE {
                (spec_normalize(v), rng@)
            } else {
                spec_unit_vec3_from(rng@, (fuel - 1) as nat)
            });
        }
        let v_squared: i64 = v.norm_squared();
        if 1 <= v_squared && v_squared <= SCALE {
            return v.normalize();
        }
        attempts = attempts + 1;
    }
    Vec3 { x: SCALE, y: 0, z: 0 }
}

/// A vector in the lens disk: `z == 0` and squared norm at most one. After a
/// bounded number of failed draws the center of the disk is returned. The
/// result and the state left behind are exactly [`spec_disk_vec3`] of the
/// entry state.
#[verifier::rlimit(100)]
#[verifier::loop_isolation(false)]
pub fn random_vec3_in_unit_disk(rng: &mut Rng) -> (r: Vec3)
    ensures
        r.in_range(SCALE as int),
        r.z == 0,
        dot3(r, r) <= SCALE,
        r == spec_disk_vec3(old(rng)@).0,
        final(rng)@ == spec_disk_vec3(old(rng)@).1,
{
    let ghost s0: u64 = rng@;
    let mut attempts: usize = 0;
    while attempts < 64
        invariant
            attempts <= 64,
            spec_disk_vec3_from(rng@, (64 - attempts) as nat) == spec_disk_vec3_from(s0, 64),
        decreases 64 - attempts,
    {
        let ghost s_it: u64 = rng@;
        let ghost fuel: nat = (64 - attempts) as nat;
        let x: i64 = rng.next_symmetric();
        let y: i64 = rng.next_symmetric();
        let v: Vec3 = Vec3 { x, y, z: 0 };
        proof {
            lemma_dot3_bound(v, v, SCALE as int, SCALE as int);
            assert(spec_disk_vec3_from(s_it, fuel) == if dot3(v, v) <= SCALE {
                (v, rng@)
            } else {
                spec_disk_vec3_from(rng@, (fuel - 1) as nat)
            });
        }
        let v_squared: i64 = v.norm_squared();
        if v_squared <= SCALE {
            return v;
        }
        attempts = attempts + 1;
    }
    proof {
        lemma_dot3_self_nonneg(Vec3 { x: 0i64, y: 0i64, z: 0i64 });
        assert(dot3(Vec3 { x: 0i64, y: 0i64, z: 0i64 }, Vec3 { x: 0i64, y: 0i64, z: 0i64 })
            == 0);
    }
    Vec3 { x: 0, y: 0, z: 0 }
}

/// A unit-length sample on the hemisphere around `normal`: the raw (un-
/// floored) dot product of the result with the normal is never negative.
pub fn random_vec3_on_hemisphere(rng: &mut Rng, normal: Vec3) -> (r: Vec3)
    requires
        normal.in_range(NORMAL_LIMIT as int),
    ensures
        r.in_range(2 * SCALE as int),
        dot_raw(r, normal) >= 0,
        r == spec_on_hemisphere(old(rng)@, normal).0,
        final(rng)@ == spec_on_hemisphere(old(rng)@, normal).1,
{
    let v: Vec3 = random_unit_vec3(rng);
    let raw: i128 = v.dot_raw_exec(normal);
    if raw > 0 {
        v
    } else {
        proof {
            assert((-v.x) * normal.x + (-v.y) * normal.y + (-v.z) * normal.z == -(v.x
                * normal.x + v.y * normal.y + v.z * normal.z)) by (nonlinear_arith);
        }
        v.neg()
    }
}

/// Whether every component vanishes at this resolution (a `1e-8`
/// threshold lies below one fixed-point step, so it means exact zero here).
pub fn near_zero(v: &Vec3) -> (r: bool)
    ensures
        r == (v.x == 0 && v.y == 0 && v.z == 0),
{
    v.x == 0 && v.y == 0 && v.z == 0
}

/// The reflection of `v` about the normal `n`: `v - 2 (v.n) n`.
pub open spec fn spec_reflect(v: Vec3, n: Vec3) -> Vec3 {
    Vec3 {
        x: (v.x - fmul(2 * dot3(v, n), n.x as int)) as i64,
        y: (v.y - fmul(2 * dot3(v, n), n.y as int)) as i64,
        z: (v.z - fmul(2 * dot3(v, n), n.z as int)) as i64,
    }
}

pub fn reflect(v: &Vec3, n: &Vec3) -> (r: Vec3)
    requires
        v.in_range(crate::hittable::DIR_LIMIT as int),
        n.in_range(NORMAL_LIMIT as int),
    ensures
        r == spec_reflect(*v, *n),
        r.in_range(0x10_0000_0000),
{
    proof {
        crate::vec3::lemma_dot3_bound_div(*v, *n, crate::hittable::DIR_LIMIT as int,
            NORMAL_LIMIT as int, 0x2_0000_0000);
        let d2 = 2 * dot3(*v, *n);
        lemma_prod_bound2(n.x as int, d2, NORMAL_LIMIT as int, 0x4_0000_0000);
        lemma_prod_bound2(n.y as int, d2, NORMAL_LIMIT as int, 0x4_0000_0000);
        lemma_prod_bound2(n.z as int, d2, NORMAL_LIMIT as int, 0x4_0000_0000);
        lemma_fdiv_bound(n.x as int * d2, SCALE as int, 0x8_0000_0000);
        lemma_fdiv_bound(n.y as int * d2, SCALE as int, 0x8_0000_0000);
        lemma_fdiv_bound(n.z as int * d2, SCALE as int, 0x8_0000_0000);
        lemma_fmul_comm(n.x as int, d2);
        lemma_fmul_comm(n.y as int, d2);
        lemma_fmul_comm(n.z as int, d2);
    }
    let d: i64 = v.dot(*n);
    let step: Vec3 = n.scale(2 * d);
    v.sub(step)
}

/// The refraction of the unit direction `uv` through a surface with normal
/// `n` and relative index `eta`, following the construction used by the
/// dielectric materials: the incident cosine is capped at one, the
/// perpendicular component is scaled by `eta`, and the parallel component
/// restores (approximately) unit length.
pub open spec fn spec_refract(uv: Vec3, n: Vec3, eta: int) -> Vec3 {
    let c0 = -dot3(uv, n);
    let cos = if c0 > SCALE { SCALE as int } else { c0 };
    let inner = Vec3 {
        x: (uv.x + fmul(n.x as int, cos)) as i64,
        y: (uv.y + fmul(n.y as int, cos)) as i64,
        z: (uv.z + fmul(n.z as int, cos)) as i64,
    };
    let r_perp = Vec3 {
        x: fmul(inner.x as int, eta) as i64,
        y: fmul(inner.y as int, eta) as i64,
        z: fmul(inner.z as int, eta) as i64,
    };
    let k = SCALE - dot3(r_perp, r_perp);
    let kk = if k < 0 {
        -k
    } else {
        k
    };
    let s = sqrt_floor(kk * SCALE as int);
    Vec3 {
        x: (r_perp.x + fmul(n.x as int, -s)) as i64,
        y: (r_perp.y + fmul(n.y as int, -s)) as i64,
        z: (r_perp.z + fmul(n.z as int, -s)) as i64,
    }
}

pub fn refract(uv: &Vec3, n: &Vec3, etai_over_etat: i64) -> (r: Vec3)
    requires
        uv.in_range(2 * SCALE as int),
        n.in_range(NORMAL_LIMIT as int),
        0 < etai_over_etat <= crate::material::INDEX_LIMIT,
    ensures
        r == spec_refract(*uv, *n, etai_over_etat as int),
        r.in_range(0x80_0000_0000),
{
    proof {
        crate::vec3::lemma_dot3_bound_div(*uv, *n, 2 * SCALE as int, NORMAL_LIMIT as int,
            0xC_0000);
    }
    let d: i64 = uv.dot(*n);
    let c0: i64 = -d;
    let cos: i64 = if c0 > SCALE { SCALE } else { c0 };
    proof {
        lemma_prod_bound2(n.x as int, cos as int, NORMAL_LIMIT as int, 0x100_0000);
        lemma_prod_bound2(n.y as int, cos as int, NORMAL_LIMIT as int, 0x100_0000);
        lemma_prod_bound2(n.z as int, cos as int, NORMAL_LIMIT as int, 0x100_0000);
        lemma_fdiv_bound(n.x as int * cos as int, SCALE as int, 0x200_0000);
        lemma_fdiv_bound(n.y as int * cos as int, SCALE as int, 0x200_0000);
        lemma_fdiv_bound(n.z as int * cos as int, SCALE as int, 0x200_0000);
    }
    let step: Vec3 = n.scale(cos);
    let inner: Vec3 = uv.add(step);
    proof {
        lemma_prod_bound2(inner.x as int, etai_over_etat as int, 0x220_0000, 0x400_0000);
        lemma_prod_bound2(inner.y as int, etai_over_etat as int, 0x220_0000, 0x400_0000);
        lemma_prod_bound2(inner.z as int, etai_over_etat as int, 0x220_0000, 0x400_0000);
        lemma_fdiv_bound(inner.x as int * etai_over_etat as int, SCALE as int, 0x8_8000_0000);
        lemma_fdiv_bound(inner.y as int * etai_over_etat as int, SCALE as int, 0x8_8000_0000);
        lemma_fdiv_bound(inner.z as int * etai_over_etat as int, SCALE as int, 0x8_8000_0000);
    }
    let r_perp: Vec3 = inner.scale(etai_over_etat);
    proof {
        crate::vec3::lemma_dot3_bound_div(r_perp, r_perp, 0x8_8000_0000, 0x8_8000_0000,
            0x100_0000_0000_0000);
    }
    let nsq: i64 = r_perp.norm_squared();
    let k: i64 = SCALE - nsq;
    let kk: i64 = if k < 0 { -k } else { k };
    let s: i64 = crate::fixed::fx_sqrt(kk);
    proof {
        assert(s as int * s as int <= kk * SCALE as int);
        assert(s as int <= 0x20_0000_0000) by {
            if s as int > 0x20_0000_0000 {
                vstd::arithmetic::mul::lemma_mul_inequality(0x20_0000_0001, s as int,
                    0x20_0000_0001);
                vstd::arithmetic::mul::lemma_mul_is_commutative(s as int, 0x20_0000_0001);
                vstd::arithmetic::mul::lemma_mul_inequality(0x20_0000_0001, s as int, s as int);
            }
        };
        lemma_prod_bound2(n.x as int, -(s as int), NORMAL_LIMIT as int, 0x20_0000_0000);
        lemma_prod_bound2(n.y as int, -(s as int), NORMAL_LIMIT as int, 0x20_0000_0000);
        lemma_prod_bound2(n.z as int, -(s as int), NORMAL_LIMIT as int, 0x20_0000_0000);
        lemma_fdiv_bound(n.x as int * -(s as int), SCALE as int, 0x40_0000_0000);
        lemma_fdiv_bound(n.y as int * -(s as int), SCALE as int, 0x40_0000_0000);
        lemma_fdiv_bound(n.z as int * -(s as int), SCALE as int, 0x40_0000_0000);
    }
    let r_par: Vec3 = n.scale(-s);
    let r: Vec3 = r_perp.add(r_par);
    r
}

} // verus!
