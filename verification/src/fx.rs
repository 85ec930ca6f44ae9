//! Saturating fixed-point scalars: an `i64` carries a real number scaled by
//! `FX_ONE` (16 fractional bits). Products and quotients truncate toward zero,
//! as the corresponding hardware operations do, and every result saturates to
//! `[-FX_MAX, FX_MAX]`, so each operation is total and exactly specified.
use vstd::prelude::*;

verus! {

/// The fixed-point representation of 1.
pub const FX_ONE: i64 = 65536;

/// Largest representable fixed-point value; `-FX_MAX` is the smallest one
/// an operation ever returns, which keeps negation safe.
pub const FX_MAX: i64 = 0x7fff_ffff_ffff_ffff;

pub open spec fn abs_i(x: int) -> int {
    if x < 0 {
        -x
    } else {
        x
    }
}

/// Saturate a mathematical integer into the fixed-point range.
pub open spec fn fx_sat(x: int) -> int {
    if x > FX_MAX {
        FX_MAX as int
    } else if x < -(FX_MAX as int) {
        -(FX_MAX as int)
    } else {
        x
    }
}

/// Division truncating toward zero, as machine division does; 0 for a zero divisor.
pub open spec fn tdiv(p: int, d: int) -> int {
    if d == 0 {
        0
    } else if (p < 0) != (d < 0) {
        -(abs_i(p) / abs_i(d))
    } else {
        abs_i(p) / abs_i(d)
    }
}

/// What multiplying two fixed-point scalars returns.
pub open spec fn fx_mul_spec(a: int, b: int) -> int {
    fx_sat(tdiv(a * b, FX_ONE as int))
}

/// What dividing two fixed-point scalars returns; a zero divisor saturates by
/// the sign of the dividend.
pub open spec fn fx_div_spec(a: int, b: int) -> int {
    if b == 0 {
        if a == 0 {
            0
        } else if a > 0 {
            FX_MAX as int
        } else {
            -(FX_MAX as int)
        }
    } else {
        fx_sat(tdiv(a * (FX_ONE as int), b))
    }
}

pub open spec fn fx_add_spec(a: int, b: int) -> int {
    fx_sat(a + b)
}

pub open spec fn fx_sub_spec(a: int, b: int) -> int {
    fx_sat(a - b)
}

pub open spec fn fx_neg_spec(a: int) -> int {
    fx_sat(-a)
}

/// `r` is the integer square root of `x`.
pub open spec fn is_isqrt(x: int, r: int) -> bool {
    0 <= r && r * r <= x && x < (r + 1) * (r + 1)
}

/// The integer square root, as a total function of the radicand.
pub open spec fn isqrt_int(x: int) -> int
    decreases x,
{
    if x < 1 {
        0
    } else {
        let r = isqrt_int(x - 1);
        if (r + 1) * (r + 1) <= x {
            r + 1
        } else {
            r
        }
    }
}

/// What the fixed-point square root returns: the integer square root of the
/// radicand rescaled so the result is again a fixed-point scalar. Non-positive
/// inputs map to 0, which realizes `sqrt(max(0, x))`.
pub open spec fn sqrt_fx_spec(a: int) -> int {
    if a <= 0 {
        0
    } else {
        isqrt_int(a * (FX_ONE as int))
    }
}

pub proof fn lemma_isqrt_int_correct(x: int)
    requires
        x >= 0,
    ensures
        is_isqrt(x, isqrt_int(x)),
    decreases x,
{
    if x < 1 {
        assert(is_isqrt(0, 0)) by (nonlinear_arith);
    } else {
        lemma_isqrt_int_correct(x - 1);
        let r = isqrt_int(x - 1);
        if (r + 1) * (r + 1) <= x {
            assert(is_isqrt(x, r + 1)) by (nonlinear_arith)
                requires
                    is_isqrt(x - 1, r),
                    (r + 1) * (r + 1) <= x,
            ;
        } else {
            assert(is_isqrt(x, r)) by (nonlinear_arith)
                requires
                    is_isqrt(x - 1, r),
                    (r + 1) * (r + 1) > x,
            ;
        }
    }
}

pub proof fn lemma_abs_mul(a: int, b: int, aa: int, bb: int)
    requires
        abs_i(a) <= aa,
        abs_i(b) <= bb,
        0 <= aa,
        0 <= bb,
    ensures
        abs_i(a * b) <= aa * bb,
{
    assert(abs_i(a * b) <= aa * bb) by (nonlinear_arith)
        requires
            abs_i(a) <= aa,
            abs_i(b) <= bb,
            0 <= aa,
            0 <= bb,
    ;
}

pub proof fn lemma_isqrt_unique(x: int, r1: int, r2: int)
    requires
        is_isqrt(x, r1),
        is_isqrt(x, r2),
    ensures
        r1 == r2,
{
    assert(r1 == r2) by (nonlinear_arith)
        requires
            is_isqrt(x, r1),
            is_isqrt(x, r2),
    ;
}

/// The magnitude of a truncated quotient never exceeds the dividend's.
pub proof fn lemma_tdiv_mag(p: int, d: int)
    requires
        d >= 1,
    ensures
        0 <= abs_i(tdiv(p, d)),
        abs_i(tdiv(p, d)) * d <= abs_i(p),
{
    assert(0 <= abs_i(p) / d && (abs_i(p) / d) * d <= abs_i(p)) by (nonlinear_arith)
        requires
            abs_i(p) >= 0,
            d >= 1,
    ;
}

/// A dividend at least as large as the divisor yields a nonzero quotient.
pub proof fn lemma_tdiv_lower(p: int, d: int)
    requires
        d >= 1,
        abs_i(p) >= d,
    ensures
        abs_i(tdiv(p, d)) >= 1,
{
    let a = abs_i(p);
    assert(a / d >= 1) by (nonlinear_arith)
        requires
            a >= d,
            d >= 1,
    ;
}

/// Truncated division by a positive divisor is monotone in the dividend.
pub proof fn lemma_tdiv_monotone(p1: int, p2: int, d: int)
    requires
        p1 <= p2,
        d >= 1,
    ensures
        tdiv(p1, d) <= tdiv(p2, d),
{
    if p1 >= 0 {
        assert(p1 / d <= p2 / d) by (nonlinear_arith)
            requires
                0 <= p1 <= p2,
                d >= 1,
        ;
    } else if p2 < 0 {
        assert((-p2) / d <= (-p1) / d) by (nonlinear_arith)
            requires
                0 <= -p2 <= -p1,
                d >= 1,
        ;
    } else {
        assert(0 <= p2 / d && 0 <= (-p1) / d) by (nonlinear_arith)
            requires
                p2 >= 0,
                -p1 >= 0,
                d >= 1,
        ;
    }
}

/// Dividing fixed-point scalars by a nonnegative divisor is monotone in the
/// dividend.
pub proof fn lemma_fx_div_monotone(x1: int, x2: int, b: int)
    requires
        x1 <= x2,
        b >= 0,
    ensures
        fx_div_spec(x1, b) <= fx_div_spec(x2, b),
{
    if b == 0 {
    } else {
        lemma_tdiv_monotone(x1 * (FX_ONE as int), x2 * (FX_ONE as int), b);
    }
}

/// Narrow a wide intermediate back to a fixed-point scalar, saturating.
pub fn sat_narrow(x: i128) -> (r: i64)
    ensures
        r as int == fx_sat(x as int),
{
    if x > (FX_MAX as i128) {
        FX_MAX
    } else if x < -(FX_MAX as i128) {
        -FX_MAX
    } else {
        x as i64
    }
}

/// The full-precision truncated product `a * b / FX_ONE`, before saturation.
pub fn mul_raw(a: i64, b: i64) -> (r: i128)
    ensures
        r as int == tdiv(a as int * b as int, FX_ONE as int),
        abs_i(r as int) <= 0x4000_0000_0000_0000_0000_0000_0000,
{
    proof {
        lemma_abs_mul(a as int, b as int, 0x8000_0000_0000_0000, 0x8000_0000_0000_0000);
    }
    let p: i128 = (a as i128) * (b as i128);
    let neg: bool = p < 0;
    let m: u128 = if neg {
        (-p) as u128
    } else {
        p as u128
    };
    assert(m as int == abs_i(p as int));
    let q: u128 = m / 65536;
    assert(q as int <= 0x4000_0000_0000_0000_0000_0000_0000) by (nonlinear_arith)
        requires
            q as int == m as int / 65536,
            0 <= m as int <= 0x8000_0000_0000_0000 * 0x8000_0000_0000_0000,
    ;
    if neg {
        -(q as i128)
    } else {
        q as i128
    }
}

pub fn fx_mul(a: i64, b: i64) -> (r: i64)
    ensures
        r as int == fx_mul_spec(a as int, b as int),
{
    sat_narrow(mul_raw(a, b))
}

pub fn fx_div(a: i64, b: i64) -> (r: i64)
    ensures
        r as int == fx_div_spec(a as int, b as int),
{
    if b == 0 {
        if a == 0 {
            0
        } else if a > 0 {
            FX_MAX
        } else {
            -FX_MAX
        }
    } else {
        proof {
            lemma_abs_mul(a as int, FX_ONE as int, 0x8000_0000_0000_0000, 65536);
        }
        let p: i128 = (a as i128) * (FX_ONE as i128);
        let neg: bool = (p < 0) != (b < 0);
        let m: u128 = if p < 0 {
            (-p) as u128
        } else {
            p as u128
        };
        let d: u128 = if b < 0 {
            (-(b as i128)) as u128
        } else {
            b as u128
        };
        assert(m as int == abs_i(p as int));
        assert(d as int == abs_i(b as int));
        let q: u128 = m / d;
        let w: i128 = if neg {
            -(q as i128)
        } else {
            q as i128
        };
        assert(w as int == tdiv(p as int, b as int));
        sat_narrow(w)
    }
}

pub fn fx_add(a: i64, b: i64) -> (r: i64)
    ensures
        r as int == fx_add_spec(a as int, b as int),
{
    sat_narrow((a as i128) + (b as i128))
}

pub fn fx_sub(a: i64, b: i64) -> (r: i64)
    ensures
        r as int == fx_sub_spec(a as int, b as int),
{
    sat_narrow((a as i128) - (b as i128))
}

pub fn fx_neg(a: i64) -> (r: i64)
    ensures
        r as int == fx_neg_spec(a as int),
{
    sat_narrow(-(a as i128))
}

pub fn fx_sqrt(a: i64) -> (r: i64)
    ensures
        r as int == sqrt_fx_spec(a as int),
{
    if a <= 0 {
        return 0;
    }
    let x: u128 = (a as u128) * 65536;
    let mut lo: u128 = 0;
    let mut hi: u128 = 0x1_0000_0000_0000;
    assert((hi as int + 1) * (hi as int + 1) > x as int) by (nonlinear_arith)
        requires
            x as int <= 0x7fff_ffff_ffff_ffff * 65536,
            hi as int == 0x1_0000_0000_0000,
    ;
    while lo < hi
        invariant
            lo <= hi,
            hi <= 0x1_0000_0000_0000,
            (lo as int) * (lo as int) <= x as int,
            (x as int) < (hi as int + 1) * (hi as int + 1),
        decreases hi - lo,
    {
        let mid: u128 = lo + (hi - lo + 1) / 2;
        assert(lo < mid <= hi);
        assert(mid as int * mid as int <= 0x1_0000_0000_0000 * 0x1_0000_0000_0000) by (nonlinear_arith)
            requires
                0 < mid as int <= 0x1_0000_0000_0000,
        ;
        if mid * mid <= x {
            lo = mid;
        } else {
            hi = mid - 1;
        }
    }
    proof {
        assert(is_isqrt(x as int, lo as int));
        lemma_isqrt_int_correct(x as int);
        lemma_isqrt_unique(x as int, lo as int, isqrt_int(x as int));
        assert(lo as int * lo as int <= x as int);
        assert(lo <= 0x1_0000_0000_0000);
    }
    lo as i64
}

} // verus!
