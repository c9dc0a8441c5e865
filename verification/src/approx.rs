//! Fixed-point approximations of the transcendental functions the camera and
//! the lensing material need: sine and cosine by truncated Taylor series,
//! the half-angle tangent from them, and a binary logarithm / binary
//! exponential pair that realizes the non-integer power of the lensing
//! index. Each executable function's contract is equality with its exact
//! spec-level mirror; the mirrors include the small floors and clamps that
//! keep every intermediate inside `i64` (inert for ordinary inputs).
use vstd::prelude::*;
use crate::fixed::{SCALE, fdiv, fmul, fquot, fclamp, sqrt_floor, fx_mul, fx_div, fx_sqrt,
    fx_clamp, fx_divint, lemma_fmul_range, lemma_fdiv_mag};
use crate::material::INDEX_LIMIT;
use vstd::arithmetic::div_mod::{lemma_div_pos_is_pos, lemma_div_is_ordered,
    lemma_fundamental_div_mod};
use vstd::arithmetic::mul::{lemma_mul_nonnegative, lemma_mul_inequality,
    lemma_mul_is_commutative};

verus! {

/// The circle constant, in fixed point.
pub const PI_FX: i64 = 205887;

/// Truncated Taylor series of the sine, valid on `[0, ~1.7]`.
pub open spec fn spec_sin(x: int) -> int {
    let x2 = fmul(x, x);
    let x3 = fmul(x2, x);
    let x5 = fmul(x3, x2);
    let x7 = fmul(x5, x2);
    let x9 = fmul(x7, x2);
    x - fdiv(x3, 6) + fdiv(x5, 120) - fdiv(x7, 5040) + fdiv(x9, 362880)
}

pub fn sin_fx(x: i64) -> (r: i64)
    requires
        0 <= x <= 110000,
    ensures
        r == spec_sin(x as int),
        -13_000_000 <= r <= 13_000_000,
{
    proof {
        lemma_fmul_range(x as int, x as int, 110000, 110000, 190000);
        lemma_fmul_range(fmul(x as int, x as int), x as int, 190000, 110000, 320000);
        lemma_fmul_range(fmul(fmul(x as int, x as int), x as int), fmul(x as int, x as int),
            320000, 190000, 950000);
        lemma_fmul_range(
            fmul(fmul(fmul(x as int, x as int), x as int), fmul(x as int, x as int)),
            fmul(x as int, x as int),
            950000,
            190000,
            2_800_000,
        );
        lemma_fmul_range(
            fmul(fmul(fmul(fmul(x as int, x as int), x as int), fmul(x as int, x as int)),
                fmul(x as int, x as int)),
            fmul(x as int, x as int),
            2_800_000,
            190000,
            8_200_000,
        );
    }
    let x2: i64 = fx_mul(x, x);
    let x3: i64 = fx_mul(x2, x);
    let x5: i64 = fx_mul(x3, x2);
    let x7: i64 = fx_mul(x5, x2);
    let x9: i64 = fx_mul(x7, x2);
    proof {
        lemma_fdiv_mag(x3 as int, 6, 320000);
        lemma_fdiv_mag(x5 as int, 120, 950000);
        lemma_fdiv_mag(x7 as int, 5040, 2_800_000);
        lemma_fdiv_mag(x9 as int, 362880, 8_200_000);
    }
    x - fx_divint(x3, 6) + fx_divint(x5, 120) - fx_divint(x7, 5040) + fx_divint(x9, 362880)
}

/// Truncated Taylor series of the cosine, valid on `[0, ~1.7]`.
pub open spec fn spec_cos(x: int) -> int {
    let x2 = fmul(x, x);
    let x4 = fmul(x2, x2);
    let x6 = fmul(x4, x2);
    let x8 = fmul(x6, x2);
    SCALE as int - fdiv(x2, 2) + fdiv(x4, 24) - fdiv(x6, 720) + fdiv(x8, 40320)
}

pub fn cos_fx(x: i64) -> (r: i64)
    requires
        0 <= x <= 110000,
    ensures
        r == spec_cos(x as int),
        -13_000_000 <= r <= 13_000_000,
{
    proof {
        lemma_fmul_range(x as int, x as int, 110000, 110000, 190000);
        lemma_fmul_range(fmul(x as int, x as int), fmul(x as int, x as int), 190000, 190000,
            560000);
        lemma_fmul_range(fmul(fmul(x as int, x as int), fmul(x as int, x as int)),
            fmul(x as int, x as int), 560000, 190000, 1_650_000);
        lemma_fmul_range(
            fmul(fmul(fmul(x as int, x as int), fmul(x as int, x as int)),
                fmul(x as int, x as int)),
            fmul(x as int, x as int),
            1_650_000,
            190000,
            4_800_000,
        );
    }
    let x2: i64 = fx_mul(x, x);
    let x4: i64 = fx_mul(x2, x2);
    let x6: i64 = fx_mul(x4, x2);
    let x8: i64 = fx_mul(x6, x2);
    proof {
        lemma_fdiv_mag(x2 as int, 2, 190000);
        lemma_fdiv_mag(x4 as int, 24, 560000);
        lemma_fdiv_mag(x6 as int, 720, 1_650_000);
        lemma_fdiv_mag(x8 as int, 40320, 4_800_000);
    }
    SCALE - fx_divint(x2, 2) + fx_divint(x4, 24) - fx_divint(x6, 720) + fx_divint(x8, 40320)
}

/// The tangent of half the given angle (in degrees): convert to radians,
/// take the sine/cosine ratio, with the cosine floored away from zero and
/// the ratio clamped into `[0, 2]` as a machine bound (inert for fields of
/// view up to 120 degrees).
pub open spec fn spec_tan_half_deg(deg: int) -> int {
    let x = fdiv(fmul(deg, PI_FX as int), 360);
    let s = spec_sin(x);
    let c0 = spec_cos(x);
    let c = if c0 < 655 {
        655int
    } else {
        c0
    };
    fclamp(fquot(s, c), 0, 2 * SCALE as int)
}

pub fn tan_half_deg(deg: i64) -> (r: i64)
    requires
        0 < deg <= 120 * SCALE,
    ensures
        r == spec_tan_half_deg(deg as int),
        0 <= r <= 2 * SCALE,
{
    proof {
        lemma_fmul_range(deg as int, PI_FX as int, 7_864_320, 205887, 24_710_000);
        lemma_mul_nonnegative(deg as int, PI_FX as int);
        lemma_div_pos_is_pos(deg as int * PI_FX as int, SCALE as int);
    }
    let a: i64 = fx_mul(deg, PI_FX);
    proof {
        lemma_div_pos_is_pos(a as int, 360);
        lemma_div_is_ordered(a as int, 24_710_000, 360);
        assert(24_710_000int / 360 <= 110000);
    }
    let x: i64 = fx_divint(a, 360);
    let s: i64 = sin_fx(x);
    let c0: i64 = cos_fx(x);
    let c: i64 = if c0 < 655 { 655 } else { c0 };
    proof {
        crate::vec3::lemma_prod_bound2(s as int, SCALE as int, 13_000_000, 0x10000);
        lemma_fdiv_mag(s as int * SCALE as int, c as int, 13_000_000int * 0x10000int);
    }
    let t0: i64 = fx_div(s, c);
    fx_clamp(t0, 0, 2 * SCALE)
}

/// Repeated halving until the mantissa drops below two, counting the shifts.
pub open spec fn spec_norm_down(m: int) -> (int, int)
    decreases m,
{
    if m < 2 * SCALE {
        (m, 0int)
    } else {
        let p = spec_norm_down(fdiv(m, 2));
        (p.0, p.1 + 1)
    }
}

/// Repeated doubling until the mantissa reaches one, counting the shifts.
pub open spec fn spec_norm_up(m: int) -> (int, int)
    decreases 2 * SCALE as int - m,
{
    if m >= SCALE {
        (m, 0int)
    } else if m < 1 {
        (SCALE as int, 0int)
    } else {
        let p = spec_norm_up(2 * m);
        (p.0, p.1 - 1)
    }
}

/// The fractional bits of the binary logarithm of a mantissa in `[1, 2]`,
/// by repeated squaring.
pub open spec fn spec_log_frac(mm: int, bit: int, i: nat) -> int
    decreases i,
{
    if i == 0 {
        0
    } else {
        let sq = fmul(mm, mm);
        if sq >= 2 * SCALE {
            bit + spec_log_frac(fdiv(sq, 2), fdiv(bit, 2), (i - 1) as nat)
        } else {
            spec_log_frac(sq, fdiv(bit, 2), (i - 1) as nat)
        }
    }
}

/// The binary logarithm of a positive fixed-point scalar, clamped into the
/// range the bounded inputs can produce.
pub open spec fn spec_log2(x: int) -> int {
    let d = spec_norm_down(x);
    let u = spec_norm_up(d.0);
    fclamp(
        (d.1 + u.1) * SCALE as int + spec_log_frac(u.0, 32768, 16),
        -17 * SCALE as int,
        12 * SCALE as int,
    )
}

pub fn log2_fx(x: i64) -> (r: i64)
    requires
        1 <= x <= 0x400_0000,
    ensures
        r == spec_log2(x as int),
        -17 * SCALE <= r <= 12 * SCALE,
{
    let mut m: i64 = x;
    let mut e: i64 = 0;
    while m >= 2 * SCALE
        invariant
            1 <= m <= 0x400_0000,
            0 <= e <= x - m,
            x <= 0x400_0000,
            spec_norm_down(x as int).0 == spec_norm_down(m as int).0,
            spec_norm_down(x as int).1 == spec_norm_down(m as int).1 + e,
        decreases m,
    {
        proof {
            lemma_div_pos_is_pos(m as int, 2);
        }
        let m2: i64 = fx_divint(m, 2);
        m = m2;
        e = e + 1;
    }
    let mut e2: i64 = 0;
    while m < SCALE
        invariant
            1 <= m < 2 * SCALE,
            m >= -e2 + 1,
            e2 <= 0,
            spec_norm_up(spec_norm_down(x as int).0).0 == spec_norm_up(m as int).0,
            spec_norm_up(spec_norm_down(x as int).0).1 == spec_norm_up(m as int).1 + e2,
        decreases 2 * SCALE - m,
    {
        m = 2 * m;
        e2 = e2 - 1;
    }
    let total_e: i64 = e + e2;
    let mut mm: i64 = m;
    let mut bit: i64 = 32768;
    let mut frac: i64 = 0;
    let mut i: usize = 0;
    while i < 16
        invariant
            0 <= i <= 16,
            SCALE <= mm <= 2 * SCALE,
            0 <= bit <= 32768,
            0 <= frac,
            frac + 2 * bit <= SCALE + 2,
            frac + spec_log_frac(mm as int, bit as int, (16 - i) as nat) == spec_log_frac(
                spec_norm_up(spec_norm_down(x as int).0).0,
                32768,
                16,
            ),
        decreases 16 - i,
    {
        proof {
            lemma_fmul_range(mm as int, mm as int, 131072, 131072, 262144);
            lemma_mul_nonnegative(mm as int, mm as int);
            lemma_div_pos_is_pos(mm as int * mm as int, SCALE as int);
            assert(fmul(mm as int, mm as int) >= SCALE as int) by {
                lemma_mul_inequality(SCALE as int, mm as int, mm as int);
                lemma_mul_is_commutative(SCALE as int, mm as int);
                lemma_mul_inequality(SCALE as int, mm as int, SCALE as int);
                lemma_div_is_ordered(SCALE as int * SCALE as int, mm as int * mm as int,
                    SCALE as int);
            };
        }
        let sq: i64 = fx_mul(mm, mm);
        if sq >= 2 * SCALE {
            proof {
                lemma_div_pos_is_pos(sq as int, 2);
                lemma_div_is_ordered(sq as int, 4 * SCALE as int, 2);
                lemma_div_is_ordered(2 * SCALE as int, sq as int, 2);
            }
            frac = frac + bit;
            mm = fx_divint(sq, 2);
        } else {
            mm = sq;
        }
        bit = fx_divint(bit, 2);
        i = i + 1;
    }
    fx_clamp(total_e * SCALE + frac, -17 * SCALE, 12 * SCALE)
}

/// The fractional part of the binary exponential: multiply in the repeated
/// square roots of two selected by the binary digits of `rem`, each product
/// clamped into `[0, 2]`.
pub open spec fn spec_exp2_frac(rem: int, bit: int, c: int, r: int, i: nat) -> int
    decreases i,
{
    if i == 0 {
        r
    } else {
        let r2 = if rem >= bit {
            fclamp(fmul(r, c), 0, 2 * SCALE as int)
        } else {
            r
        };
        let rem2 = if rem >= bit {
            rem - bit
        } else {
            rem
        };
        let c2 = fclamp(sqrt_floor(c * SCALE as int), 0, 2 * SCALE as int);
        spec_exp2_frac(rem2, fdiv(bit, 2), c2, r2, (i - 1) as nat)
    }
}

/// Doubling `k` times, saturating at the index bound.
pub open spec fn spec_shift_up(r: int, k: int) -> int
    decreases k,
{
    if k <= 0 {
        r
    } else {
        let d = 2 * r;
        spec_shift_up(
            if d > INDEX_LIMIT as int {
                INDEX_LIMIT as int
            } else {
                d
            },
            k - 1,
        )
    }
}

/// Halving `k` times.
pub open spec fn spec_shift_down(r: int, k: int) -> int
    decreases k,
{
    if k <= 0 {
        r
    } else {
        spec_shift_down(fdiv(r, 2), k - 1)
    }
}

/// The binary exponential of a fixed-point scalar, saturating at the index
/// bound above and at zero below.
pub open spec fn spec_exp2(y: int) -> int {
    let yi = fdiv(y, SCALE as int);
    let yf = y - yi * SCALE as int;
    if yi >= 26 {
        INDEX_LIMIT as int
    } else if yi < -16 {
        0
    } else {
        let c0 = fclamp(sqrt_floor(2 * SCALE as int * SCALE as int), 0, 2 * SCALE as int);
        let f = spec_exp2_frac(yf, 32768, c0, SCALE as int, 16);
        if yi >= 0 {
            spec_shift_up(f, yi)
        } else {
            spec_shift_down(f, -yi)
        }
    }
}

pub fn exp2_fx(y: i64) -> (r: i64)
    requires
        -0x1000_0000 <= y <= 0x1000_0000,
    ensures
        r == spec_exp2(y as int),
        0 <= r <= INDEX_LIMIT,
{
    let yi: i64 = fx_divint(y, SCALE);
    proof {
        lemma_fdiv_mag(y as int, SCALE as int, 0x1000_0000);
        lemma_fundamental_div_mod(y as int, SCALE as int);
    }
    let yf: i64 = y - yi * SCALE;
    proof {
        assert(0 <= yf < SCALE);
    }
    if yi >= 26 {
        return INDEX_LIMIT;
    }
    if yi < -16 {
        return 0;
    }
    let c_init: i64 = fx_clamp(fx_sqrt(2 * SCALE), 0, 2 * SCALE);
    let mut rem: i64 = yf;
    let mut bit: i64 = 32768;
    let mut c: i64 = c_init;
    let mut r: i64 = SCALE;
    let mut i: usize = 0;
    while i < 16
        invariant
            0 <= i <= 16,
            0 <= rem,
            0 <= bit <= 32768,
            0 <= c <= 2 * SCALE,
            0 <= r <= 2 * SCALE,
            spec_exp2_frac(rem as int, bit as int, c as int, r as int, (16 - i) as nat)
                == spec_exp2_frac(yf as int, 32768, c_init as int, SCALE as int, 16),
        decreases 16 - i,
    {
        if rem >= bit {
            proof {
                lemma_fmul_range(r as int, c as int, 131072, 131072, 262144);
            }
            r = fx_clamp(fx_mul(r, c), 0, 2 * SCALE);
            rem = rem - bit;
        }
        c = fx_clamp(fx_sqrt(c), 0, 2 * SCALE);
        bit = fx_divint(bit, 2);
        i = i + 1;
    }
    if yi >= 0 {
        let mut k: i64 = yi;
        while k > 0
            invariant
                0 <= k <= 26,
                0 <= r <= INDEX_LIMIT,
                spec_shift_up(r as int, k as int) == spec_shift_up(
                    spec_exp2_frac(yf as int, 32768, c_init as int, SCALE as int, 16),
                    yi as int,
                ),
            decreases k,
        {
            let d: i64 = 2 * r;
            r = if d > INDEX_LIMIT { INDEX_LIMIT } else { d };
            k = k - 1;
        }
        r
    } else {
        let mut k: i64 = -yi;
        while k > 0
            invariant
                0 <= k <= 16,
                0 <= r <= INDEX_LIMIT,
                spec_shift_down(r as int, k as int) == spec_shift_down(
                    spec_exp2_frac(yf as int, 32768, c_init as int, SCALE as int, 16),
                    -(yi as int),
                ),
            decreases k,
        {
            proof {
                lemma_div_pos_is_pos(r as int, 2);
                lemma_div_is_ordered(r as int, INDEX_LIMIT as int, 2);
            }
            r = fx_divint(r, 2);
            k = k - 1;
        }
        r
    }
}

/// The real power `base ^ ex` for a nonnegative base and a small
/// nonnegative exponent, through `exp2(ex * log2 base)`; zero below one
/// resolution step.
pub open spec fn spec_powf(base: int, ex: int) -> int {
    if base < 1 {
        0
    } else {
        spec_exp2(fmul(ex, spec_log2(base)))
    }
}

pub fn powf_fx(base: i64, ex: i64) -> (r: i64)
    requires
        0 <= base <= 0x400_0000,
        0 <= ex <= 4 * SCALE,
    ensures
        r == spec_powf(base as int, ex as int),
        0 <= r <= INDEX_LIMIT,
{
    if base < 1 {
        return 0;
    }
    let lg: i64 = log2_fx(base);
    proof {
        lemma_fmul_range(ex as int, lg as int, 4 * SCALE as int, 17 * SCALE as int,
            0x1000_0000);
    }
    let prod: i64 = fx_mul(ex, lg);
    exp2_fx(prod)
}

} // verus!
