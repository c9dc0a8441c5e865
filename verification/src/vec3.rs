//! Three-component fixed-point vectors.
//!
//! Components are fixed-point scalars (see [`crate::fixed`]). The contracts
//! state every component of every result exactly, over the spec-level
//! operations [`dot3`] and the [`crate::fixed`] arithmetic.
use vstd::prelude::*;
use crate::fixed::{
    SCALE, fdiv, fmul, fquot, fclamp, sqrt_floor, is_sqrt_floor, fx_mul, fx_div, fx_sqrt,
    fx_clamp, div_floor_i128, lemma_fdiv_bound,
};
use vstd::arithmetic::mul::{lemma_mul_inequality, lemma_mul_is_commutative};

verus! {

#[derive(Clone, Copy, Debug, PartialEq, Eq, Structural)]
pub struct Vec3 {
    pub x: i64,
    pub y: i64,
    pub z: i64,
}

/// The un-floored dot product numerator; its sign decides front faces.
pub open spec fn dot_raw(a: Vec3, b: Vec3) -> int {
    a.x * b.x + a.y * b.y + a.z * b.z
}

/// The mathematical dot product of two fixed-point vectors, floored once.
pub open spec fn dot3(a: Vec3, b: Vec3) -> int {
    fdiv(dot_raw(a, b), SCALE as int)
}

/// Componentwise bounds give a bound on the dot product.
pub proof fn lemma_dot3_bound(a: Vec3, b: Vec3, ba: int, bb: int)
    requires
        a.in_range(ba),
        b.in_range(bb),
        0 <= ba,
        0 <= bb,
    ensures
        -(3 * ba * bb) <= dot_raw(a, b) <= 3 * ba * bb,
        -(3 * ba * bb) <= dot3(a, b) <= 3 * ba * bb,
{
    assert(-(3 * ba * bb) <= dot_raw(a, b) <= 3 * ba * bb) by (nonlinear_arith)
        requires
            -ba <= a.x <= ba && -ba <= a.y <= ba && -ba <= a.z <= ba && -bb <= b.x <= bb
                && -bb <= b.y <= bb && -bb <= b.z <= bb && 0 <= ba && 0 <= bb;
    lemma_fdiv_quot_mag(dot_raw(a, b), SCALE as int, 3 * ba * bb);
}

/// Componentwise bounds give a bound on the dot product that accounts for
/// the fixed-point division: `|dot3| <= m` whenever `3*ba*bb <= m*SCALE`.
pub proof fn lemma_dot3_bound_div(a: Vec3, b: Vec3, ba: int, bb: int, m: int)
    requires
        a.in_range(ba),
        b.in_range(bb),
        0 <= ba,
        0 <= bb,
        0 <= m,
        3 * ba * bb <= m * SCALE as int,
    ensures
        -m <= dot3(a, b) <= m,
{
    lemma_dot3_bound(a, b, ba, bb);
    lemma_fdiv_bound(dot_raw(a, b), SCALE as int, m);
}

/// A vector's dot product with itself is nonnegative.
pub proof fn lemma_dot3_self_nonneg(v: Vec3)
    ensures
        dot_raw(v, v) >= 0,
        dot3(v, v) >= 0,
{
    assert(v.x * v.x + v.y * v.y + v.z * v.z >= 0) by (nonlinear_arith);
    vstd::arithmetic::div_mod::lemma_div_pos_is_pos(dot_raw(v, v), SCALE as int);
}

/// The fixed-point normalization of `v`, with each component clamped into
/// `[-2, 2]` (in fixed-point units) as a safety bound; the clamp is inert for
/// any vector whose squared norm is at least one resolution step.
pub open spec fn spec_normalize(v: Vec3) -> Vec3 {
    let len = sqrt_floor(dot3(v, v) * SCALE as int);
    Vec3 {
        x: fclamp(fquot(v.x as int, len), -2 * SCALE as int, 2 * SCALE as int) as i64,
        y: fclamp(fquot(v.y as int, len), -2 * SCALE as int, 2 * SCALE as int) as i64,
        z: fclamp(fquot(v.z as int, len), -2 * SCALE as int, 2 * SCALE as int) as i64,
    }
}

impl Vec3 {
    /// Every component has magnitude at most `b`.
    pub open spec fn in_range(self, b: int) -> bool {
        &&& -b <= self.x <= b
        &&& -b <= self.y <= b
        &&& -b <= self.z <= b
    }

    /// Runtime test of [`Vec3::in_range`].
    pub fn in_range_exec(self, b: i64) -> (r: bool)
        requires
            0 <= b,
        ensures
            r == self.in_range(b as int),
    {
        -b <= self.x && self.x <= b && -b <= self.y && self.y <= b && -b <= self.z && self.z
            <= b
    }

    pub fn new(x: i64, y: i64, z: i64) -> (r: Vec3)
        ensures
            r == (Vec3 { x, y, z }),
    {
        Vec3 { x, y, z }
    }

    pub fn zeros() -> (r: Vec3)
        ensures
            r == (Vec3 { x: 0i64, y: 0i64, z: 0i64 }),
    {
        Vec3 { x: 0, y: 0, z: 0 }
    }

    pub fn add(self, o: Vec3) -> (r: Vec3)
        requires
            i64::MIN <= self.x + o.x <= i64::MAX,
            i64::MIN <= self.y + o.y <= i64::MAX,
            i64::MIN <= self.z + o.z <= i64::MAX,
        ensures
            r.x == self.x + o.x,
            r.y == self.y + o.y,
            r.z == self.z + o.z,
    {
        Vec3 { x: self.x + o.x, y: self.y + o.y, z: self.z + o.z }
    }

    pub fn sub(self, o: Vec3) -> (r: Vec3)
        requires
            i64::MIN <= self.x - o.x <= i64::MAX,
            i64::MIN <= self.y - o.y <= i64::MAX,
            i64::MIN <= self.z - o.z <= i64::MAX,
        ensures
            r.x == self.x - o.x,
            r.y == self.y - o.y,
            r.z == self.z - o.z,
    {
        Vec3 { x: self.x - o.x, y: self.y - o.y, z: self.z - o.z }
    }

    pub fn neg(self) -> (r: Vec3)
        requires
            self.x > i64::MIN,
            self.y > i64::MIN,
            self.z > i64::MIN,
        ensures
            r.x == -self.x,
            r.y == -self.y,
            r.z == -self.z,
    {
        Vec3 { x: -self.x, y: -self.y, z: -self.z }
    }

    /// Scale every component by the fixed-point scalar `k`.
    pub fn scale(self, k: i64) -> (r: Vec3)
        requires
            i64::MIN <= fmul(self.x as int, k as int) <= i64::MAX,
            i64::MIN <= fmul(self.y as int, k as int) <= i64::MAX,
            i64::MIN <= fmul(self.z as int, k as int) <= i64::MAX,
        ensures
            r.x == fmul(self.x as int, k as int),
            r.y == fmul(self.y as int, k as int),
            r.z == fmul(self.z as int, k as int),
    {
        Vec3 { x: fx_mul(self.x, k), y: fx_mul(self.y, k), z: fx_mul(self.z, k) }
    }

    /// Component-wise fixed-point product (attenuation of a color).
    pub fn component_mul(self, o: Vec3) -> (r: Vec3)
        requires
            i64::MIN <= fmul(self.x as int, o.x as int) <= i64::MAX,
            i64::MIN <= fmul(self.y as int, o.y as int) <= i64::MAX,
            i64::MIN <= fmul(self.z as int, o.z as int) <= i64::MAX,
        ensures
            r.x == fmul(self.x as int, o.x as int),
            r.y == fmul(self.y as int, o.y as int),
            r.z == fmul(self.z as int, o.z as int),
    {
        Vec3 { x: fx_mul(self.x, o.x), y: fx_mul(self.y, o.y), z: fx_mul(self.z, o.z) }
    }

    /// The un-floored dot product numerator, exactly; its sign tells which
    /// side of a plane a vector points to, without the flooring of [`dot3`].
    pub fn dot_raw_exec(self, o: Vec3) -> (r: i128)
        requires
            self.in_range(0x100_0000_0000),
            o.in_range(0x100_0000_0000),
        ensures
            r == dot_raw(self, o),
    {
        proof {
            lemma_prod_bound(self.x as int, o.x as int, 0x100_0000_0000);
            lemma_prod_bound(self.y as int, o.y as int, 0x100_0000_0000);
            lemma_prod_bound(self.z as int, o.z as int, 0x100_0000_0000);
        }
        (self.x as i128) * (o.x as i128) + (self.y as i128) * (o.y as i128) + (self.z as i128)
            * (o.z as i128)
    }

    pub fn dot(self, o: Vec3) -> (r: i64)
        requires
            self.in_range(0x100_0000_0000),
            o.in_range(0x100_0000_0000),
            i64::MIN <= dot3(self, o) <= i64::MAX,
        ensures
            r == dot3(self, o),
    {
        proof {
            lemma_prod_bound(self.x as int, o.x as int, 0x100_0000_0000);
            lemma_prod_bound(self.y as int, o.y as int, 0x100_0000_0000);
            lemma_prod_bound(self.z as int, o.z as int, 0x100_0000_0000);
        }
        let s: i128 = (self.x as i128) * (o.x as i128) + (self.y as i128) * (o.y as i128)
            + (self.z as i128) * (o.z as i128);
        let q: i128 = div_floor_i128(s, SCALE as i128);
        q as i64
    }

    pub fn norm_squared(self) -> (r: i64)
        requires
            self.in_range(0x100_0000_0000),
            i64::MIN <= dot3(self, self) <= i64::MAX,
        ensures
            r == dot3(self, self),
    {
        self.dot(self)
    }

    pub fn cross(self, o: Vec3) -> (r: Vec3)
        requires
            self.in_range(0x40_0000_0000),
            o.in_range(0x40_0000_0000),
        ensures
            r.x == fmul(self.y as int, o.z as int) - fmul(self.z as int, o.y as int),
            r.y == fmul(self.z as int, o.x as int) - fmul(self.x as int, o.z as int),
            r.z == fmul(self.x as int, o.y as int) - fmul(self.y as int, o.x as int),
    {
        proof {
            lemma_cross_term(self.y as int, o.z as int);
            lemma_cross_term(self.z as int, o.y as int);
            lemma_cross_term(self.z as int, o.x as int);
            lemma_cross_term(self.x as int, o.z as int);
            lemma_cross_term(self.x as int, o.y as int);
            lemma_cross_term(self.y as int, o.x as int);
        }
        Vec3 {
            x: fx_mul(self.y, o.z) - fx_mul(self.z, o.y),
            y: fx_mul(self.z, o.x) - fx_mul(self.x, o.z),
            z: fx_mul(self.x, o.y) - fx_mul(self.y, o.x),
        }
    }

    /// Normalize to (approximately) unit length; see [`spec_normalize`].
    pub fn normalize(self) -> (r: Vec3)
        requires
            self.in_range(0x10_0000_0000),
            dot3(self, self) >= 1,
        ensures
            r == spec_normalize(self),
            r.in_range(2 * SCALE as int),
    {
        proof {
            lemma_dot3_bound_div(self, self, 0x10_0000_0000, 0x10_0000_0000,
                0x400_0000_0000_0000);
        }
        let nsq: i64 = self.norm_squared();
        let len: i64 = fx_sqrt(nsq);
        proof {
            assert(len >= 1) by {
                if len < 1 {
                    assert(is_sqrt_floor(nsq * SCALE as int, len as int));
                    assert(len == 0);
                    assert((nsq * SCALE as int) < 1) by (nonlinear_arith)
                        requires
                            is_sqrt_floor(nsq * SCALE as int, len as int) && len == 0;
                }
            };
            lemma_quot_fits(self.x as int, len as int);
            lemma_quot_fits(self.y as int, len as int);
            lemma_quot_fits(self.z as int, len as int);
        }
        let sx: i64 = fx_clamp(fx_div(self.x, len), -2 * SCALE, 2 * SCALE);
        let sy: i64 = fx_clamp(fx_div(self.y, len), -2 * SCALE, 2 * SCALE);
        let sz: i64 = fx_clamp(fx_div(self.z, len), -2 * SCALE, 2 * SCALE);
        Vec3 { x: sx, y: sy, z: sz }
    }
}

/// Bound the product of two bounded factors.
pub proof fn lemma_prod_bound(a: int, b: int, m: int)
    requires
        -m <= a <= m,
        -m <= b <= m,
        0 <= m,
    ensures
        -(m * m) <= a * b <= m * m,
{
    assert(-(m * m) <= a * b <= m * m) by (nonlinear_arith)
        requires
            -m <= a <= m && -m <= b <= m && 0 <= m;
}

/// Bound the product of two factors with separate bounds.
pub proof fn lemma_prod_bound2(a: int, b: int, ma: int, mb: int)
    requires
        -ma <= a <= ma,
        -mb <= b <= mb,
        0 <= ma,
        0 <= mb,
    ensures
        -(ma * mb) <= a * b <= ma * mb,
{
    assert(-(ma * mb) <= a * b <= ma * mb) by (nonlinear_arith)
        requires
            -ma <= a <= ma && -mb <= b <= mb && 0 <= ma && 0 <= mb;
}

/// A product of factors at most `2^38` in magnitude has a fixed-point product
/// that fits comfortably in an `i64`.
proof fn lemma_cross_term(a: int, b: int)
    requires
        -0x40_0000_0000 <= a <= 0x40_0000_0000,
        -0x40_0000_0000 <= b <= 0x40_0000_0000,
    ensures
        -0x2000_0000_0000_0000 <= fmul(a, b) <= 0x2000_0000_0000_0000,
{
    lemma_prod_bound(a, b, 0x40_0000_0000);
    lemma_fdiv_bound(a * b, SCALE as int, 0x2000_0000_0000_0000);
}

/// The quotient formed inside `normalize` fits in an `i64`.
proof fn lemma_quot_fits(c: int, len: int)
    requires
        -0x10_0000_0000 <= c <= 0x10_0000_0000,
        1 <= len,
    ensures
        i64::MIN <= fquot(c, len) <= i64::MAX,
{
    lemma_prod_bound2(c, SCALE as int, 0x10_0000_0000, 0x10000);
    assert(fquot(c, len) == (c * SCALE as int) / len);
    lemma_fdiv_quot_mag(c * SCALE as int, len, 0x10_0000_0000int * 0x10000int);
}

/// Magnitude of a floor quotient is bounded by the magnitude of the dividend.
pub proof fn lemma_fdiv_quot_mag(x: int, d: int, m: int)
    requires
        1 <= d,
        0 <= m,
        -m <= x <= m,
    ensures
        -m <= fdiv(x, d) <= m,
{
    assert(-(m * d) <= x <= m * d) by (nonlinear_arith)
        requires
            -m <= x <= m && 1 <= d && 0 <= m;
    lemma_fdiv_bound(x, d, m);
}

} // verus!
