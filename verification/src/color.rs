//! Colors and the tone-mapped text output.
//!
//! A color is a vector of linear-light channel values in `[0, 1]` fixed
//! point. Output applies a gamma-2 encode (square root), clamps into
//! `[0, 0.999]`, scales into an 8-bit channel, and writes one decimal triple
//! per line; the contract states the emitted bytes exactly.
use vstd::prelude::*;
use crate::vec3::Vec3;
use crate::fixed::{SCALE, fclamp, fdiv, sqrt_floor, fx_sqrt, fx_clamp};
use vstd::arithmetic::div_mod::lemma_div_is_ordered;

verus! {

pub type Color = Vec3;

/// Gamma-2 encoding of one linear channel: the fixed-point square root of the
/// value clamped to be nonnegative.
pub open spec fn spec_linear_to_gamma(c: int) -> int {
    if c >= 0 {
        sqrt_floor(c * SCALE as int)
    } else {
        0
    }
}

fn linear_to_gamma(linear_component: i64) -> (r: i64)
    ensures
        r == spec_linear_to_gamma(linear_component as int),
        r >= 0,
{
    if linear_component >= 0 {
        fx_sqrt(linear_component)
    } else {
        0
    }
}

/// One tone-mapped 8-bit channel: gamma-encode, clamp into `[0, 0.999]`,
/// scale by 256 and floor.
pub open spec fn spec_channel(c: int) -> int {
    fdiv(256 * fclamp(spec_linear_to_gamma(c), 0, (SCALE - 66) as int), SCALE as int)
}

/// Tone-map one channel into an integer in `[0, 255]`.
fn channel_byte(c: i64) -> (r: u8)
    ensures
        r == spec_channel(c as int),
{
    let g: i64 = linear_to_gamma(c);
    let clamped: i64 = fx_clamp(g, 0, SCALE - 66);
    let scaled: i64 = (256 * clamped) / SCALE;
    proof {
        assert(fdiv(256 * clamped as int, SCALE as int) == 256 * clamped as int
            / SCALE as int);
        lemma_div_is_ordered(256 * clamped as int, 256 * (SCALE - 66) as int, SCALE as int);
        assert(256 * (SCALE - 66) / SCALE as int == 255);
        vstd::arithmetic::div_mod::lemma_div_pos_is_pos(256 * clamped as int, SCALE as int);
    }
    scaled as u8
}

/// The three tone-mapped channels of a pixel, in `[0, 255]` each.
pub fn color_to_rgb(pixel_color: Color) -> (rgb: (u8, u8, u8))
    ensures
        rgb.0 == spec_channel(pixel_color.x as int),
        rgb.1 == spec_channel(pixel_color.y as int),
        rgb.2 == spec_channel(pixel_color.z as int),
{
    (channel_byte(pixel_color.x), channel_byte(pixel_color.y), channel_byte(pixel_color.z))
}

/// The decimal digits of `v`, as ASCII bytes without leading zeros.
pub open spec fn dec_bytes(v: int) -> Seq<u8>
    decreases v,
{
    if v <= 9 {
        seq![(48 + if v >= 0 { v } else { 0 }) as u8]
    } else {
        dec_bytes(v / 10).push((48 + (v % 10)) as u8)
    }
}

/// Append the decimal digits of one 8-bit value.
fn push_decimal(out: &mut Vec<u8>, v: u8)
    ensures
        final(out)@ == old(out)@ + dec_bytes(v as int),
{
    if v <= 9 {
        out.push(48 + v);
        assert(out@ =~= old(out)@ + dec_bytes(v as int));
    } else if v <= 99 {
        out.push(48 + v / 10);
        out.push(48 + v % 10);
        assert(dec_bytes(v as int) == dec_bytes(v as int / 10).push(
            (48 + (v as int % 10)) as u8,
        ));
        assert(out@ =~= old(out)@ + dec_bytes(v as int));
    } else {
        out.push(48 + v / 100);
        out.push(48 + (v / 10) % 10);
        out.push(48 + v % 10);
        assert(dec_bytes(v as int) == dec_bytes(v as int / 10).push(
            (48 + (v as int % 10)) as u8,
        ));
        assert(dec_bytes(v as int / 10) == dec_bytes(v as int / 10 / 10).push(
            (48 + (v as int / 10 % 10)) as u8,
        ));
        assert(v as int / 10 / 10 == v as int / 100) by (nonlinear_arith);
        assert(v as int / 10 % 10 == (v as int / 10) % 10);
        assert(out@ =~= old(out)@ + dec_bytes(v as int));
    }
}

/// The bytes of one output line: three decimal channel values separated by
/// spaces, ended by a newline.
pub open spec fn triple_line_bytes(r: int, g: int, b: int) -> Seq<u8> {
    dec_bytes(r) + seq![32u8] + dec_bytes(g) + seq![32u8] + dec_bytes(b) + seq![10u8]
}

/// Tone-map a pixel and append its output line to the sink.
pub fn write_color(file: &mut Vec<u8>, pixel_color: Color)
    ensures
        final(file)@ == old(file)@ + triple_line_bytes(
            spec_channel(pixel_color.x as int),
            spec_channel(pixel_color.y as int),
            spec_channel(pixel_color.z as int),
        ),
{
    let (r, g, b): (u8, u8, u8) = color_to_rgb(pixel_color);
    push_decimal(file, r);
    file.push(32);
    push_decimal(file, g);
    file.push(32);
    push_decimal(file, b);
    file.push(10);
    assert(file@ =~= old(file)@ + triple_line_bytes(r as int, g as int, b as int));
}

} // verus!
