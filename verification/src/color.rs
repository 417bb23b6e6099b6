//! The tonemap at the integrator's consumer edge: average the sample
//! sum, apply gamma-2 correction, clamp, and quantize.

use vstd::prelude::*;

use crate::common::{
    clamp, clamp_spec, div_trunc, isqrt_u128, lemma_div_le, lemma_div_nonneg,
    lemma_sqrt_exists, lemma_sqrt_unique, sqrt_floor, tdiv, FP_ONE,
};
use crate::vec3::Color;

verus! {

/// The tonemapped byte of one linear channel: the sample sum `c` is
/// divided by the sample count `n`, gamma-corrected by a fixed-point
/// square root, clamped to `[0, 0.999]`, and quantized by `255.999`.
pub open spec fn tonemap(c: int, n: int) -> int {
    let avg = tdiv(c, n);
    let g = sqrt_floor(avg * FP_ONE as int);
    let cl = clamp_spec(g, 0, 65470);
    tdiv(cl * 255999, 65536000)
}

/// A quotient is strictly below any `x` whose multiple exceeds the
/// dividend.
proof fn lemma_div_lt(n: int, d: int, x: int)
    requires
        0 <= n,
        1 <= d,
        n < x * d,
    ensures
        n / d < x,
{
    vstd::arithmetic::div_mod::lemma_fundamental_div_mod(n, d);
    vstd::arithmetic::div_mod::lemma_mod_bound(n, d);
    assert(n / d < x) by (nonlinear_arith)
        requires
            d * (n / d) <= n,
            n < x * d,
            1 <= d,
    ;
}

/// Tonemap one channel to a byte.
fn tonemap_channel(c: i128, n: u32) -> (b: u8)
    requires
        1 <= n,
        0 <= c <= n as i128 * FP_ONE,
    ensures
        b as int == tonemap(c as int, n as int),
{
    proof {
        lemma_div_nonneg(c as int, n as int);
        lemma_div_le(c as int, n as int, FP_ONE as int);
    }
    let avg = div_trunc(c, n as i128);
    let gr = isqrt_u128((avg * FP_ONE) as u128);
    proof {
        lemma_sqrt_exists(avg as int * FP_ONE as int);
        lemma_sqrt_unique(
            avg as int * FP_ONE as int,
            gr as int,
            sqrt_floor(avg as int * FP_ONE as int),
        );
        if gr as int > 65536 {
            assert(gr as int * gr as int > 4294967296int) by (nonlinear_arith)
                requires
                    gr as int > 65536,
            ;
        }
    }
    let g = gr as i128;
    let cl = clamp(g, 0, 65470);
    proof {
        lemma_div_nonneg(cl as int * 255999, 65536000);
        lemma_div_lt(cl as int * 255999, 65536000, 256);
    }
    let b = div_trunc(cl * 255999, 65536000);
    b as u8
}

/// Turn the accumulated per-sample color sum of one pixel into the
/// display-referred byte triple: divide by the sample count, apply
/// gamma-2 (square root per channel), clamp to `[0, 0.999]` and
/// quantize to `[0, 255]`.
pub fn write_color(pixel_color: Color, samples_per_pixel: u32) -> (rgb: (u8, u8, u8))
    requires
        1 <= samples_per_pixel,
        0 <= pixel_color.x <= samples_per_pixel as i128 * FP_ONE,
        0 <= pixel_color.y <= samples_per_pixel as i128 * FP_ONE,
        0 <= pixel_color.z <= samples_per_pixel as i128 * FP_ONE,
    ensures
        rgb.0 as int == tonemap(pixel_color.x as int, samples_per_pixel as int),
        rgb.1 as int == tonemap(pixel_color.y as int, samples_per_pixel as int),
        rgb.2 as int == tonemap(pixel_color.z as int, samples_per_pixel as int),
{
    let r = tonemap_channel(pixel_color.x, samples_per_pixel);
    let g = tonemap_channel(pixel_color.y, samples_per_pixel);
    let b = tonemap_channel(pixel_color.z, samples_per_pixel);
    (r, g, b)
}

} // verus!
