//! Conversion of linear fixed-point colors into packed 32-bit pixels:
//! square-root gamma correction, scaling to `[0, 255]` with clamping, and
//! packing as fully opaque `0xAARRGGBB`.
use crate::fx::{fx_mul, fx_mul_spec, fx_sqrt, sqrt_fx_spec, tdiv, FX_ONE};
use crate::math::{clamp_spec, V3, Vector3};
use vstd::prelude::*;

verus! {

pub type Color = Vector3;

/// 255, as a fixed-point scalar.
pub const FX_255: i64 = 255 * 65536;

/// Square-root gamma correction of one linear channel; non-positive input is
/// clamped to zero before the root.
pub open spec fn gamma_spec(c: int) -> int {
    if c > 0 {
        sqrt_fx_spec(c)
    } else {
        0
    }
}

/// A gamma-corrected channel scaled by 255, clamped to `[0, 255]` and
/// truncated to a whole number.
pub open spec fn quant_spec(c: int) -> int {
    tdiv(clamp_spec(0, FX_255 as int, fx_mul_spec(c, FX_255 as int)), FX_ONE as int)
}

/// The packed pixel of a linear color: alpha 255, then the gamma-corrected,
/// quantized channels.
pub open spec fn color_spec(v: V3) -> int {
    0xff00_0000 + quant_spec(gamma_spec(v.x)) * 0x1_0000 + quant_spec(gamma_spec(v.y)) * 0x100
        + quant_spec(gamma_spec(v.z))
}

fn linear_to_gamma(c: i64) -> (r: i64)
    ensures
        r as int == gamma_spec(c as int),
        r >= 0,
{
    if c > 0 {
        let s = fx_sqrt(c);
        proof {
            crate::fx::lemma_isqrt_int_correct(c as int * FX_ONE as int);
        }
        s
    } else {
        0
    }
}

fn quantize(c: i64) -> (r: u32)
    requires
        c >= 0,
    ensures
        r as int == quant_spec(c as int),
        r <= 255,
{
    let scaled = fx_mul(c, FX_255);
    let clamped: i64 = if scaled < 0 {
        0
    } else if scaled > FX_255 {
        FX_255
    } else {
        scaled
    };
    let q: u64 = (clamped as u64) / 65536;
    proof {
        assert(q as int <= 255 && q as int == tdiv(clamped as int, FX_ONE as int))
            by (nonlinear_arith)
            requires
                0 <= clamped as int <= FX_255 as int,
                q as int == clamped as int / 65536,
                FX_255 as int == 255 * 65536,
                tdiv(clamped as int, FX_ONE as int) == clamped as int / 65536,
        ;
    }
    q as u32
}

/// Pack a linear color into an opaque 32-bit pixel.
pub fn vec3_to_color(vec: &Vector3) -> (r: u32)
    ensures
        r as int == color_spec(vec@),
        r >= 0xff00_0000,
{
    let rq = quantize(linear_to_gamma(vec.x));
    let gq = quantize(linear_to_gamma(vec.y));
    let bq = quantize(linear_to_gamma(vec.z));
    0xff00_0000u32 + rq * 0x1_0000 + gq * 0x100 + bq
}

} // verus!
