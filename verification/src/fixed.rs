//! Fixed-point scalar arithmetic.
//!
//! A scalar is an `i64` holding a real value scaled by [`SCALE`] (so the
//! representable resolution is `1 / SCALE`). All derived operations round by
//! flooring; the spec functions [`fdiv`], [`fmul`], [`fquot`] and
//! [`sqrt_floor`] give every executable operation an exact meaning over the
//! mathematical integers, which the rest of the library's contracts are
//! phrased in.
use vstd::prelude::*;
use vstd::arithmetic::div_mod::{
    lemma_fundamental_div_mod, lemma_fundamental_div_mod_converse, lemma_div_is_ordered,
    lemma_div_by_multiple,
};
use vstd::arithmetic::mul::{
    lemma_mul_inequality, lemma_mul_is_commutative, lemma_mul_nonnegative,
};

verus! {

/// Number of fixed-point steps per unit: values are stored as `real * SCALE`.
pub const SCALE: i64 = 65536;

/// Floor division: the mathematical quotient rounded toward negative infinity.
/// (Verus's `/` on `int` is Euclidean division, which equals floor division
/// for a positive divisor; a negative divisor is reduced to that case.)
pub open spec fn fdiv(x: int, d: int) -> int {
    if d > 0 {
        x / d
    } else if d < 0 {
        (-x) / (-d)
    } else {
        0
    }
}

/// The fixed-point product of two scalars: `(a * b) / SCALE`, floored.
pub open spec fn fmul(a: int, b: int) -> int {
    fdiv(a * b, SCALE as int)
}

/// The fixed-point quotient of two scalars: `(a * SCALE) / b`, floored.
pub open spec fn fquot(a: int, b: int) -> int {
    fdiv(a * SCALE as int, b)
}

/// `r` is the floor of the square root of `n`.
pub open spec fn is_sqrt_floor(n: int, r: int) -> bool {
    0 <= r && r * r <= n && n < (r + 1) * (r + 1)
}

/// The floor of the square root of `n` (0 for negative `n`).
pub open spec fn sqrt_floor(n: int) -> int {
    if n >= 0 {
        choose|r: int| is_sqrt_floor(n, r)
    } else {
        0
    }
}

/// The square-root floor is unique, so any witness equals `sqrt_floor`.
pub proof fn lemma_sqrt_floor_unique(n: int, r: int)
    requires
        is_sqrt_floor(n, r),
    ensures
        sqrt_floor(n) == r,
{
    assert(n >= 0) by (nonlinear_arith)
        requires
            is_sqrt_floor(n, r);
    assert(exists|q: int| is_sqrt_floor(n, q));
    let q = choose|q: int| is_sqrt_floor(n, q);
    assert(q == r) by (nonlinear_arith)
        requires
            is_sqrt_floor(n, q),
            is_sqrt_floor(n, r);
}

/// Floor division of a negative dividend by a positive divisor, expressed
/// through the ceiling of the magnitudes.
proof fn lemma_div_neg_dividend(m: int, d: int)
    requires
        m >= 1,
        d >= 1,
    ensures
        (-m) / d == -((m - 1) / d + 1),
{
    let q = (m - 1) / d;
    let r = (m - 1) % d;
    lemma_fundamental_div_mod(m - 1, d);
    assert(m - 1 == q * d + r);
    assert(-m == (-q - 1) * d + (d - r - 1)) by (nonlinear_arith)
        requires
            m - 1 == q * d + r;
    lemma_fundamental_div_mod_converse(-m, d, -q - 1, d - r - 1);
}

/// Bounds transfer through floor division by a positive divisor.
pub proof fn lemma_fdiv_bound(x: int, d: int, b: int)
    requires
        d >= 1,
        0 <= b,
        -(b * d) <= x <= b * d,
    ensures
        -b <= fdiv(x, d) <= b,
{
    lemma_div_is_ordered(x, b * d, d);
    lemma_div_by_multiple(b, d);
    lemma_div_is_ordered(-(b * d), x, d);
    assert(-(b * d) == (-b) * d + 0) by (nonlinear_arith);
    lemma_fundamental_div_mod_converse(-(b * d), d, -b, 0);
}

/// Magnitude of a floor quotient is bounded by the magnitude of the
/// dividend, for any nonzero divisor.
pub proof fn lemma_fdiv_mag(x: int, d: int, m: int)
    requires
        d != 0,
        0 <= m,
        -m <= x <= m,
    ensures
        -m <= fdiv(x, d) <= m,
{
    if d > 0 {
        assert(-(m * d) <= x <= m * d) by (nonlinear_arith)
            requires
                -m <= x <= m && 1 <= d && 0 <= m;
        lemma_fdiv_bound(x, d, m);
    } else {
        assert(fdiv(x, d) == fdiv(-x, -d));
        assert(-(m * -d) <= -x <= m * -d) by (nonlinear_arith)
            requires
                -m <= x <= m && d <= -1 && 0 <= m;
        lemma_fdiv_bound(-x, -d, m);
    }
}

/// A fixed-point product of factors bounded by `ma` and `mb` is bounded by
/// any `m` with `ma * mb <= m * SCALE`.
pub proof fn lemma_fmul_range(a: int, b: int, ma: int, mb: int, m: int)
    requires
        -ma <= a <= ma,
        -mb <= b <= mb,
        0 <= ma,
        0 <= mb,
        0 <= m,
        ma * mb <= m * SCALE as int,
    ensures
        -m <= fmul(a, b) <= m,
{
    assert(-(ma * mb) <= a * b <= ma * mb) by (nonlinear_arith)
        requires
            -ma <= a <= ma && -mb <= b <= mb && 0 <= ma && 0 <= mb;
    lemma_fdiv_bound(a * b, SCALE as int, m);
}

/// Floor division of an `i64` by a positive divisor.
pub fn fx_divint(a: i64, d: i64) -> (r: i64)
    requires
        d >= 1,
        a > i64::MIN,
    ensures
        r == fdiv(a as int, d as int),
{
    proof {
        if a >= 0 {
            lemma_fdiv_mag(a as int, d as int, a as int);
        } else {
            lemma_fdiv_mag(a as int, d as int, -(a as int));
        }
    }
    let q: i128 = div_floor_i128(a as i128, d as i128);
    q as i64
}

/// A fixed-point product of factors in `[0, SCALE]` stays in `[0, SCALE]`
/// and below either factor: multiplying by an albedo can only attenuate.
pub proof fn lemma_fmul_unit(a: int, b: int)
    requires
        0 <= a <= SCALE as int,
        0 <= b <= SCALE as int,
    ensures
        0 <= fmul(a, b) <= a,
        fmul(a, b) <= b,
{
    let s = SCALE as int;
    lemma_mul_nonnegative(a, b);
    lemma_div_is_ordered(0, a * b, s);
    lemma_mul_inequality(b, s, a);
    lemma_mul_is_commutative(a, b);
    lemma_mul_is_commutative(s, a);
    assert(a * b <= a * s);
    lemma_div_is_ordered(a * b, a * s, s);
    lemma_div_by_multiple(a, s);
    lemma_mul_inequality(a, s, b);
    lemma_mul_is_commutative(s, b);
    assert(a * b <= b * s);
    lemma_div_is_ordered(a * b, b * s, s);
    lemma_div_by_multiple(b, s);
}

/// Fixed-point multiplication is commutative.
pub proof fn lemma_fmul_comm(a: int, b: int)
    ensures
        fmul(a, b) == fmul(b, a),
{
    lemma_mul_is_commutative(a, b);
}

/// Floor division by a positive divisor, with the signed range reduced to
/// unsigned machine division.
pub fn div_floor_i128(x: i128, d: i128) -> (q: i128)
    requires
        d != 0,
        x > i128::MIN,
        d > i128::MIN,
    ensures
        q == fdiv(x as int, d as int),
{
    let (xn, dn): (i128, i128) = if d < 0 {
        (-x, -d)
    } else {
        (x, d)
    };
    if xn >= 0 {
        let q: u128 = (xn as u128) / (dn as u128);
        proof {
            lemma_div_is_ordered(0, xn as int, dn as int);
            lemma_div_is_ordered(xn as int, xn as int, dn as int);
            assert(xn as int / dn as int <= xn as int) by (nonlinear_arith)
                requires
                    dn >= 1,
                    xn >= 0;
        }
        q as i128
    } else {
        let m: u128 = (-xn) as u128;
        let qc: u128 = (m - 1) / (dn as u128) + 1;
        proof {
            lemma_div_neg_dividend(m as int, dn as int);
            assert((m - 1) as int / dn as int <= (m - 1) as int) by (nonlinear_arith)
                requires
                    dn >= 1,
                    m >= 1;
        }
        -(qc as i128)
    }
}

/// Fixed-point multiplication; the contract is exactly [`fmul`].
pub fn fx_mul(a: i64, b: i64) -> (r: i64)
    requires
        i64::MIN <= fmul(a as int, b as int) <= i64::MAX,
    ensures
        r == fmul(a as int, b as int),
{
    proof {
        assert(-(0x8000_0000_0000_0000 * 0x8000_0000_0000_0000) < a as int * b as int
            && a as int * b as int <= 0x8000_0000_0000_0000 * 0x8000_0000_0000_0000)
            by (nonlinear_arith)
            requires
                -0x8000_0000_0000_0000 <= a as int <= 0x7fff_ffff_ffff_ffff,
                -0x8000_0000_0000_0000 <= b as int <= 0x7fff_ffff_ffff_ffff;
    }
    let p: i128 = (a as i128) * (b as i128);
    let q: i128 = div_floor_i128(p, SCALE as i128);
    q as i64
}

/// Fixed-point division; the contract is exactly [`fquot`].
pub fn fx_div(a: i64, b: i64) -> (r: i64)
    requires
        b != 0,
        i64::MIN <= fquot(a as int, b as int) <= i64::MAX,
    ensures
        r == fquot(a as int, b as int),
{
    let p: i128 = (a as i128) * (SCALE as i128);
    let q: i128 = div_floor_i128(p, b as i128);
    q as i64
}

/// Floor of the square root, by bisection over the answer.
pub fn isqrt_u128(n: u128) -> (r: u128)
    ensures
        is_sqrt_floor(n as int, r as int),
{
    let mut lo: u128 = 0;
    let mut hi: u128 = 0x1_0000_0000_0000_0000;
    proof {
        assert(0x1_0000_0000_0000_0000int * 0x1_0000_0000_0000_0000int > u128::MAX);
    }
    while hi - lo > 1
        invariant
            lo < hi,
            hi <= 0x1_0000_0000_0000_0000u128,
            lo as int * lo as int <= n as int,
            hi as int * hi as int > n as int,
        decreases hi - lo,
    {
        let mid: u128 = lo + (hi - lo) / 2;
        proof {
            assert(mid as int * mid as int <= u128::MAX) by (nonlinear_arith)
                requires
                    0 <= mid as int && (mid as int) < 0x1_0000_0000_0000_0000;
        }
        if mid * mid <= n {
            lo = mid;
        } else {
            hi = mid;
        }
    }
    lo
}

/// Square root of a nonnegative fixed-point scalar, as a fixed-point scalar:
/// the floor of `sqrt(x * SCALE)`.
pub fn fx_sqrt(x: i64) -> (r: i64)
    requires
        0 <= x,
    ensures
        r == sqrt_floor(x * SCALE as int),
        is_sqrt_floor(x * SCALE as int, r as int),
{
    proof {
        assert(x as int * 65536 <= 0x8_0000_0000_0000_0000_0000) by (nonlinear_arith)
            requires
                0 <= x as int && (x as int) <= 0x7fff_ffff_ffff_ffff;
    }
    let n: u128 = (x as u128) * (SCALE as u128);
    let r: u128 = isqrt_u128(n);
    proof {
        assert(r as int <= 0x100_0000_0000) by {
            if r as int > 0x100_0000_0000 {
                lemma_mul_inequality(0x100_0000_0001, r as int, 0x100_0000_0001);
                lemma_mul_is_commutative(r as int, 0x100_0000_0001);
                lemma_mul_inequality(0x100_0000_0001, r as int, r as int);
                assert(0x100_0000_0001 * 0x100_0000_0001 > 0x8_0000_0000_0000_0000_0000int);
            }
        };
        lemma_sqrt_floor_unique(n as int, r as int);
    }
    r as i64
}

/// Clamp a scalar into `[lo, hi]`.
pub fn fx_clamp(x: i64, lo: i64, hi: i64) -> (r: i64)
    requires
        lo <= hi,
    ensures
        r == fclamp(x as int, lo as int, hi as int),
        lo <= r <= hi,
{
    if x < lo {
        lo
    } else if x > hi {
        hi
    } else {
        x
    }
}

/// The mathematical clamp mirrored by [`fx_clamp`].
pub open spec fn fclamp(x: int, lo: int, hi: int) -> int {
    if x < lo {
        lo
    } else if x > hi {
        hi
    } else {
        x
    }
}

/// Fifth power of a scalar in `[0, SCALE]`, by repeated fixed-point products.
pub open spec fn fpow5(x: int) -> int {
    fmul(fmul(fmul(fmul(x, x), x), x), x)
}

/// Executable fifth power for scalars in `[0, SCALE]`; used by Schlick's
/// approximation and the lensing layer weight.
pub fn fx_pow5(x: i64) -> (r: i64)
    requires
        0 <= x <= SCALE,
    ensures
        r == fpow5(x as int),
        0 <= r <= x,
{
    proof {
        lemma_fmul_unit(x as int, x as int);
        lemma_fmul_unit(fmul(x as int, x as int), x as int);
        lemma_fmul_unit(fmul(fmul(x as int, x as int), x as int), x as int);
        lemma_fmul_unit(fmul(fmul(fmul(x as int, x as int), x as int), x as int), x as int);
    }
    let x2: i64 = fx_mul(x, x);
    let x3: i64 = fx_mul(x2, x);
    let x4: i64 = fx_mul(x3, x);
    fx_mul(x4, x)
}

} // verus!
