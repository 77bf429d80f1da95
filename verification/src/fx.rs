//! Q47.16 fixed-point sample arithmetic.
//!
//! A sample is an `i64` holding a signal value scaled by [`FX_ONE`]: the
//! integer `65536` stands for an amplitude of `1.0`, `-65536` for `-1.0`.
//! Products are evaluated in 128-bit intermediates and divided by the scale
//! with truncation toward zero, so every operation here is total and exactly
//! described by its contract.

use vstd::prelude::*;
use vstd::arithmetic::div_mod::{lemma_div_nonincreasing, lemma_div_is_ordered};
use vstd::arithmetic::mul::lemma_mul_inequality;

verus! {

/// The fixed-point representation of amplitude 1.0.
pub const FX_ONE: i64 = 65536;

/// The fixed-point representation of amplitude 0.5.
pub const FX_HALF: i64 = 32768;

/// Magnitude bound accepted by [`lerp`] and [`delerp`] endpoints.
pub const FX_BOUND: i64 = 0x1_0000_0000;

/// Absolute value of a mathematical integer.
pub open spec fn fx_abs(x: int) -> int {
    if x < 0 {
        -x
    } else {
        x
    }
}

/// Signed division truncating toward zero, the semantics of machine division.
pub open spec fn div_trunc(p: int, q: int) -> int
    recommends
        q != 0,
{
    if (p < 0) != (q < 0) {
        -(fx_abs(p) / fx_abs(q))
    } else {
        fx_abs(p) / fx_abs(q)
    }
}

/// The fixed-point product: `a * b` rescaled by [`FX_ONE`], truncated toward
/// zero.
pub open spec fn fx_mul_spec(a: int, b: int) -> int {
    div_trunc(a * b, FX_ONE as int)
}

/// `x` limited to the closed interval `[lo, hi]`.
pub open spec fn clamp_spec(x: int, lo: int, hi: int) -> int
    recommends
        lo <= hi,
{
    if x < lo {
        lo
    } else if x > hi {
        hi
    } else {
        x
    }
}

/// The product of two `i64` values fits comfortably inside `i128`.
proof fn lemma_i64_product_in_range(a: int, b: int)
    requires
        -0x8000_0000_0000_0000 <= a <= 0x7fff_ffff_ffff_ffff,
        -0x8000_0000_0000_0000 <= b <= 0x7fff_ffff_ffff_ffff,
    ensures
        -0x4000_0000_0000_0000_0000_0000_0000_0000 <= a * b
            <= 0x4000_0000_0000_0000_0000_0000_0000_0000,
{
    assert(-0x4000_0000_0000_0000_0000_0000_0000_0000 <= a * b
        <= 0x4000_0000_0000_0000_0000_0000_0000_0000) by (nonlinear_arith)
        requires
            -0x8000_0000_0000_0000 <= a <= 0x7fff_ffff_ffff_ffff,
            -0x8000_0000_0000_0000 <= b <= 0x7fff_ffff_ffff_ffff,
    ;
}

/// Truncating division by a positive divisor never grows the magnitude.
pub proof fn lemma_div_trunc_abs_le(p: int, q: int)
    requires
        q >= 1,
    ensures
        fx_abs(div_trunc(p, q)) <= fx_abs(p),
        fx_abs(div_trunc(p, q)) == fx_abs(p) / q,
{
    lemma_div_nonincreasing(fx_abs(p), q);
    vstd::arithmetic::div_mod::lemma_div_pos_is_pos(fx_abs(p), q);
}

/// When `fx_abs(a) <= FX_ONE`, the fixed-point product is no larger in
/// magnitude than `b`; when `fx_abs(a) < FX_ONE` and `b != 0`, it is strictly
/// smaller.
pub proof fn lemma_fx_mul_magnitude(a: int, b: int)
    requires
        -FX_ONE <= a <= FX_ONE,
    ensures
        fx_abs(fx_mul_spec(a, b)) <= fx_abs(b),
        fx_abs(a) < FX_ONE ==> fx_abs(fx_mul_spec(a, b)) < fx_abs(b) || b == 0,
{
    let one = FX_ONE as int;
    lemma_div_trunc_abs_le(a * b, one);
    assert(fx_abs(a * b) == fx_abs(a) * fx_abs(b)) by (nonlinear_arith);
    lemma_mul_inequality(fx_abs(a), one, fx_abs(b));
    assert(fx_abs(a) * fx_abs(b) <= one * fx_abs(b));
    lemma_div_is_ordered(fx_abs(a) * fx_abs(b), one * fx_abs(b), one);
    assert(one * fx_abs(b) / one == fx_abs(b)) by (nonlinear_arith)
        requires
            one == 65536,
            fx_abs(b) >= 0,
    ;
    if fx_abs(a) < one && b != 0 {
        assert(fx_abs(a) * fx_abs(b) <= (one - 1) * fx_abs(b)) by {
            lemma_mul_inequality(fx_abs(a), one - 1, fx_abs(b));
        }
        assert((one - 1) * fx_abs(b) == one * fx_abs(b) - fx_abs(b)) by (nonlinear_arith);
        lemma_div_is_ordered(fx_abs(a) * fx_abs(b), one * fx_abs(b) - fx_abs(b), one);
        assert((one * fx_abs(b) - fx_abs(b)) / one <= fx_abs(b) - 1) by (nonlinear_arith)
            requires
                one == 65536,
                fx_abs(b) >= 1,
        ;
    }
}

/// The fixed-point product keeps the sign of the mathematical product.
pub proof fn lemma_fx_mul_sign(a: int, b: int)
    ensures
        a >= 0 && b >= 0 ==> fx_mul_spec(a, b) >= 0,
        a <= 0 && b >= 0 ==> fx_mul_spec(a, b) <= 0,
        a >= 0 && b <= 0 ==> fx_mul_spec(a, b) <= 0,
        a <= 0 && b <= 0 ==> fx_mul_spec(a, b) >= 0,
{
    let one = FX_ONE as int;
    vstd::arithmetic::div_mod::lemma_div_pos_is_pos(fx_abs(a * b), one);
    if a >= 0 && b >= 0 {
        vstd::arithmetic::mul::lemma_mul_nonnegative(a, b);
    }
    if a <= 0 && b >= 0 {
        vstd::arithmetic::mul::lemma_mul_nonnegative(-a, b);
        assert((-a) * b == -(a * b)) by (nonlinear_arith);
    }
    if a >= 0 && b <= 0 {
        vstd::arithmetic::mul::lemma_mul_nonnegative(a, -b);
        assert(a * (-b) == -(a * b)) by (nonlinear_arith);
    }
    if a <= 0 && b <= 0 {
        vstd::arithmetic::mul::lemma_mul_nonnegative(-a, -b);
        assert((-a) * (-b) == a * b) by (nonlinear_arith);
    }
}

/// The full-width fixed-point product, exact over `i128`.
fn fx_mul_wide(a: i64, b: i64) -> (r: i128)
    ensures
        r == fx_mul_spec(a as int, b as int),
        fx_abs(r as int) <= fx_abs((a as int) * (b as int)),
{
    proof {
        lemma_i64_product_in_range(a as int, b as int);
    }
    let p: i128 = (a as i128) * (b as i128);
    if p >= 0 {
        let q: u128 = (p as u128) / 65536u128;
        proof {
            lemma_div_nonincreasing(p as int, 65536);
        }
        q as i128
    } else {
        let m: u128 = ((-p) as u128) / 65536u128;
        proof {
            lemma_div_nonincreasing(-p as int, 65536);
        }
        -(m as i128)
    }
}

/// Fixed-point product with a unit-bounded left factor.
///
/// The factor `a` must lie in `[-FX_ONE, FX_ONE]`, so the result can never
/// exceed the magnitude of `b` and fits an `i64`; the one corner that would
/// not, negating the smallest `i64`, is excluded.
pub fn fx_mul_unit(a: i64, b: i64) -> (r: i64)
    requires
        -FX_ONE <= a <= FX_ONE,
        a == -FX_ONE ==> b as int != -0x8000_0000_0000_0000,
    ensures
        r == fx_mul_spec(a as int, b as int),
        fx_abs(r as int) <= fx_abs(b as int),
{
    let wide: i128 = fx_mul_wide(a, b);
    proof {
        lemma_fx_mul_magnitude(a as int, b as int);
        if a == FX_ONE || a == -FX_ONE {
            assert(fx_abs((a as int) * (b as int)) == fx_abs(b as int) * 65536)
                by (nonlinear_arith)
                requires
                    a == 65536 || a == -65536,
            ;
            assert(fx_abs(fx_mul_spec(a as int, b as int)) == fx_abs(b as int)) by {
                assert(fx_abs(b as int) * 65536 / 65536 == fx_abs(b as int))
                    by (nonlinear_arith)
                    requires
                        fx_abs(b as int) >= 0,
                ;
            }
        }
    }
    wide as i64
}

/// Fixed-point product clamped to the unit interval `[-FX_ONE, FX_ONE]`.
pub fn fx_mul_clamp_unit(a: i64, b: i64) -> (r: i64)
    ensures
        r == clamp_spec(fx_mul_spec(a as int, b as int), -FX_ONE as int, FX_ONE as int),
        -FX_ONE <= r <= FX_ONE,
{
    let wide: i128 = fx_mul_wide(a, b);
    if wide < -(FX_ONE as i128) {
        -FX_ONE
    } else if wide > FX_ONE as i128 {
        FX_ONE
    } else {
        wide as i64
    }
}

/// Signed truncating division over `i128`, for block-level accumulators.
pub fn div_trunc_i128(p: i128, q: i128) -> (r: i128)
    requires
        q >= 1,
        p as int > -0x8000_0000_0000_0000_0000_0000_0000_0000,
    ensures
        r == div_trunc(p as int, q as int),
        fx_abs(r as int) <= fx_abs(p as int),
{
    proof {
        lemma_div_nonincreasing(fx_abs(p as int), q as int);
        vstd::arithmetic::div_mod::lemma_div_pos_is_pos(fx_abs(p as int), q as int);
    }
    if p >= 0 {
        let mag: u128 = (p as u128) / (q as u128);
        mag as i128
    } else {
        let mag: u128 = ((-p) as u128) / (q as u128);
        -(mag as i128)
    }
}

/// Clamping really lands inside the interval.
pub proof fn lemma_clamp_bounds(x: int, lo: int, hi: int)
    requires
        lo <= hi,
    ensures
        lo <= clamp_spec(x, lo, hi) <= hi,
{
}

/// `x` limited to `[lo, hi]`.
pub fn clamp64(x: i64, lo: i64, hi: i64) -> (r: i64)
    requires
        lo <= hi,
    ensures
        r == clamp_spec(x as int, lo as int, hi as int),
{
    if x < lo {
        lo
    } else if x > hi {
        hi
    } else {
        x
    }
}

/// Linear interpolation `a + (b - a) * x` in fixed point.
///
/// `x` is a fixed-point coordinate; values outside `[0, FX_ONE]`
/// extrapolate. The only bounds are for representability: endpoints and
/// coordinate within `FX_BOUND` keep the result inside an `i64`.
pub fn lerp(a: i64, b: i64, x: i64) -> (r: i64)
    requires
        -FX_BOUND <= a <= FX_BOUND,
        -FX_BOUND <= b <= FX_BOUND,
        -FX_BOUND <= x <= FX_BOUND,
    ensures
        r == a + fx_mul_spec((b - a) as int, x as int),
{
    let d: i64 = b - a;
    let m: i128 = fx_mul_wide(d, x);
    proof {
        let p: int = (d as int) * (x as int);
        lemma_div_trunc_abs_le(p, FX_ONE as int);
        assert(fx_abs(p) <= 0x2_0000_0000_0000_0000) by (nonlinear_arith)
            requires
                p == (d as int) * (x as int),
                fx_abs(d as int) <= 0x2_0000_0000,
                fx_abs(x as int) <= 0x1_0000_0000,
        ;
        lemma_div_is_ordered(fx_abs(p), 0x2_0000_0000_0000_0000, FX_ONE as int);
        vstd::arithmetic::div_mod::lemma_div_by_multiple(0x2_0000_0000_0000, FX_ONE as int);
        assert(0x2_0000_0000_0000int * (FX_ONE as int) == 0x2_0000_0000_0000_0000int)
            by (nonlinear_arith);
    }
    a + (m as i64)
}

/// Inverse linear interpolation `(y - a) / (b - a)` in fixed point,
/// truncated toward zero. The endpoints must differ.
pub fn delerp(a: i64, b: i64, y: i64) -> (r: i64)
    requires
        a != b,
        -FX_BOUND <= a <= FX_BOUND,
        -FX_BOUND <= b <= FX_BOUND,
        -FX_BOUND <= y <= FX_BOUND,
    ensures
        r == div_trunc((y - a) * (FX_ONE as int), (b - a) as int),
{
    let num: i128 = (y as i128 - a as i128) * 65536;
    let den: i128 = b as i128 - a as i128;
    let num_mag: u128 = if num >= 0 {
        num as u128
    } else {
        (-num) as u128
    };
    let den_mag: u128 = if den >= 0 {
        den as u128
    } else {
        (-den) as u128
    };
    let mag: u128 = num_mag / den_mag;
    proof {
        lemma_div_nonincreasing(num_mag as int, den_mag as int);
    }
    if (num < 0) != (den < 0) {
        -(mag as i64)
    } else {
        mag as i64
    }
}

} // verus!
