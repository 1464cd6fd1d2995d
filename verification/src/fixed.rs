//! Fixed-point scalar arithmetic for the terrain pipeline.
//!
//! A scalar is an `i64` counting millionths of a world unit: `SCALE`
//! represents `1.0`. Every operation clamps its result into
//! `[-FX_MAX, FX_MAX]`, so grid invariants survive arbitrary call chains,
//! and division truncates toward zero.

use vstd::prelude::*;

verus! {

/// Fixed-point representation of `1.0`.
pub const SCALE: i64 = 1_000_000;

/// Largest magnitude a fixed-point scalar may take (2^62). Headroom chosen so
/// that a product of two scalars, and window sums over any grid, fit in
/// `i128`/`u128` intermediates.
pub const FX_MAX: i64 = 0x4000_0000_0000_0000;

/// A scalar within the representable fixed-point range.
pub open spec fn fx_valid(v: i64) -> bool {
    -FX_MAX <= v <= FX_MAX
}

/// Saturate a mathematical integer into the representable range.
pub open spec fn clamp_spec(v: int) -> i64 {
    if v < -(FX_MAX as int) {
        (-FX_MAX) as i64
    } else if v > FX_MAX {
        FX_MAX
    } else {
        v as i64
    }
}

/// Magnitude of a mathematical integer.
pub open spec fn iabs(v: int) -> int {
    if v < 0 {
        -v
    } else {
        v
    }
}

/// Division truncating toward zero (the behaviour of the executable
/// helpers below), defined for positive divisors.
pub open spec fn div_trunc(a: int, b: int) -> int {
    if a >= 0 {
        a / b
    } else {
        -((-a) / b)
    }
}

/// Product scaled down by a positive divisor, truncated and saturated:
/// the shape of every fixed-point multiply and divide in the crate.
pub open spec fn mul_div_spec(a: int, b: int, d: int) -> i64 {
    clamp_spec(div_trunc(a * b, d))
}

/// Fixed-point product of two scalars.
pub open spec fn fx_mul_spec(a: i64, b: i64) -> i64 {
    mul_div_spec(a as int, b as int, SCALE as int)
}

/// Saturating sum of two scalars.
pub open spec fn fx_add_spec(a: i64, b: i64) -> i64 {
    clamp_spec(a + b)
}

/// Saturating difference of two scalars.
pub open spec fn fx_sub_spec(a: i64, b: i64) -> i64 {
    clamp_spec(a - b)
}

proof fn lemma_abs_mul(a: int, b: int)
    ensures
        iabs(a) * iabs(b) == iabs(a * b),
        a * b < 0 <==> (a < 0 && b > 0) || (a > 0 && b < 0),
{
    assert(iabs(a) * iabs(b) == iabs(a * b) && (a * b < 0 <==> (a < 0 && b > 0) || (a > 0 && b
        < 0))) by (nonlinear_arith);
}

/// Saturate an `i128` intermediate into the scalar range.
pub fn clamp_i128(v: i128) -> (r: i64)
    ensures
        r == clamp_spec(v as int),
        fx_valid(r),
{
    if v < -(FX_MAX as i128) {
        -FX_MAX
    } else if v > FX_MAX as i128 {
        FX_MAX
    } else {
        v as i64
    }
}

/// `a * b / d`, truncated toward zero and saturated.
pub fn mul_div(a: i64, b: i64, d: i64) -> (r: i64)
    requires
        d > 0,
    ensures
        r == mul_div_spec(a as int, b as int, d as int),
        fx_valid(r),
{
    let neg: bool = (a < 0) != (b < 0);
    let ua: u128 = if a < 0 {
        (-(a as i128)) as u128
    } else {
        a as u128
    };
    let ub: u128 = if b < 0 {
        (-(b as i128)) as u128
    } else {
        b as u128
    };
    proof {
        lemma_abs_mul(a as int, b as int);
        assert(ua as int == iabs(a as int));
        assert(ub as int == iabs(b as int));
        assert(ua * ub == iabs(a as int * b as int));
        assert(ua * ub <= 0x4000_0000_0000_0000_0000_0000_0000_0000u128) by (nonlinear_arith)
            requires
                ua <= 0x8000_0000_0000_0000u128,
                ub <= 0x8000_0000_0000_0000u128,
        ;
    }
    let q: u128 = (ua * ub) / (d as u128);
    proof {
        vstd::arithmetic::div_mod::lemma_div_nonincreasing((ua * ub) as int, d as int);
        assert(q <= ua * ub);
        assert(q as int == iabs(a as int * b as int) / (d as int));
    }
    let sq: i128 = if neg {
        -(q as i128)
    } else {
        q as i128
    };
    proof {
        let p = a as int * b as int;
        if p >= 0 {
            assert(iabs(p) == p);
            assert(sq as int == div_trunc(p, d as int));
        } else {
            assert(neg);
            assert(sq as int == -(q as int));
            assert(iabs(p) == -p);
            assert(sq as int == div_trunc(p, d as int));
        }
    }
    clamp_i128(sq)
}

/// Fixed-point product: `a * b / SCALE`.
pub fn fx_mul(a: i64, b: i64) -> (r: i64)
    ensures
        r == fx_mul_spec(a, b),
        fx_valid(r),
{
    mul_div(a, b, SCALE)
}

/// Signed division truncating toward zero, saturated.
pub fn sdiv(a: i64, d: i64) -> (r: i64)
    requires
        d > 0,
    ensures
        r == clamp_spec(div_trunc(a as int, d as int)),
        fx_valid(r),
{
    let r = mul_div(a, 1, d);
    proof {
        assert(a as int * 1 == a as int);
    }
    r
}

/// Saturating addition.
pub fn fx_add(a: i64, b: i64) -> (r: i64)
    ensures
        r == fx_add_spec(a, b),
        fx_valid(r),
{
    clamp_i128(a as i128 + b as i128)
}

/// Saturating subtraction.
pub fn fx_sub(a: i64, b: i64) -> (r: i64)
    ensures
        r == fx_sub_spec(a, b),
        fx_valid(r),
{
    clamp_i128(a as i128 - b as i128)
}

/// Truncating division of a wide intermediate by a positive divisor.
pub fn div_trunc_i128(a: i128, d: i128) -> (r: i128)
    requires
        d > 0,
        a > i128::MIN,
    ensures
        r == div_trunc(a as int, d as int),
{
    if a >= 0 {
        (((a as u128)) / (d as u128)) as i128
    } else {
        let q: u128 = ((-a) as u128) / (d as u128);
        proof {
            vstd::arithmetic::div_mod::lemma_div_nonincreasing((-a) as int, d as int);
        }
        -(q as i128)
    }
}

/// A quotient truncated toward zero keeps any multiple-of-the-divisor bound.
pub proof fn lemma_div_trunc_bound(v: int, d: int, b: int)
    requires
        d > 0,
        b >= 0,
        iabs(v) <= b * d,
    ensures
        iabs(div_trunc(v, d)) <= b,
{
    if v >= 0 {
        vstd::arithmetic::div_mod::lemma_div_is_ordered(v, b * d, d);
        vstd::arithmetic::div_mod::lemma_div_by_multiple(b, d);
        vstd::arithmetic::div_mod::lemma_div_pos_is_pos(v, d);
    } else {
        vstd::arithmetic::div_mod::lemma_div_is_ordered(-v, b * d, d);
        vstd::arithmetic::div_mod::lemma_div_by_multiple(b, d);
        vstd::arithmetic::div_mod::lemma_div_pos_is_pos(-v, d);
    }
}

/// Linear interpolation between two scalars with a weight in `[0, SCALE]`:
/// `(h0 * (SCALE - f) + h1 * f) / SCALE`, truncated and saturated.
pub open spec fn lerp_spec(h0: i64, h1: i64, f: i64) -> i64 {
    clamp_spec(div_trunc(h0 * (SCALE - f) + h1 * f, SCALE as int))
}

/// Interpolate between `h0` and `h1`; `f == 0` gives `h0`, `f == SCALE` gives `h1`.
pub fn lerp(h0: i64, h1: i64, f: i64) -> (r: i64)
    requires
        0 <= f <= SCALE,
    ensures
        r == lerp_spec(h0, h1, f),
        fx_valid(r),
{
    proof {
        assert(iabs((h0 as int) * ((SCALE - f) as int)) <= 0x8000_0000_0000_0000 * 0x100000 && iabs(
            (h1 as int) * (f as int)) <= 0x8000_0000_0000_0000 * 0x100000) by (nonlinear_arith)
            requires
                -0x8000_0000_0000_0000 <= h0 as int <= 0x8000_0000_0000_0000,
                -0x8000_0000_0000_0000 <= h1 as int <= 0x8000_0000_0000_0000,
                0 <= f as int <= 0x100000,
        ;
    }
    let num: i128 = (h0 as i128) * ((SCALE - f) as i128) + (h1 as i128) * (f as i128);
    let q: i128 = div_trunc_i128(num, SCALE as i128);
    clamp_i128(q)
}

/// Integer square root: the exact floor of the real square root.
pub fn isqrt(x: u128) -> (r: u64)
    requires
        x < 0x4000_0000_0000_0000_0000_0000_0000_0000u128,
    ensures
        (r as int) * (r as int) <= x as int,
        (x as int) < ((r as int + 1) * (r as int + 1)),
{
    let mut lo: u128 = 0;
    let mut hi: u128 = 0x7FFF_FFFF_FFFF_FFFFu128;
    proof {
        assert((hi as int + 1) * (hi as int + 1) > x as int) by (nonlinear_arith)
            requires
                hi as int + 1 == 0x8000_0000_0000_0000,
                x < 0x4000_0000_0000_0000_0000_0000_0000_0000u128,
        ;
    }
    while lo < hi
        invariant
            lo <= hi,
            hi <= 0x7FFF_FFFF_FFFF_FFFFu128,
            (lo as int) * (lo as int) <= x as int,
            (x as int) < ((hi as int + 1) * (hi as int + 1)),
        decreases hi - lo,
    {
        let mid: u128 = lo + (hi - lo + 1) / 2;
        proof {
            assert(mid * mid <= 0xFFFF_FFFF_FFFF_FFFF_FFFF_FFFF_FFFF_FFFFu128) by (nonlinear_arith)
                requires
                    mid <= 0x7FFF_FFFF_FFFF_FFFFu128,
            ;
        }
        if mid * mid <= x {
            lo = mid;
        } else {
            hi = mid - 1;
        }
    }
    lo as u64
}

/// The floor of the real square root of a non-negative integer.
pub open spec fn sqrt_floor(x: int) -> int {
    choose|r: int| 0 <= r && #[trigger] (r * r) <= x && x < (r + 1) * (r + 1)
}

/// Any witness of the square-root bounds is the floor square root.
pub proof fn lemma_sqrt_floor_unique(x: int, r: int)
    requires
        r >= 0,
        r * r <= x,
        x < ((r + 1) * (r + 1)),
    ensures
        sqrt_floor(x) == r,
{
    assert(0 <= r && (r * r) <= x && x < (r + 1) * (r + 1));
    let q = sqrt_floor(x);
    assert(0 <= q && (q * q) <= x && x < (q + 1) * (q + 1));
    if q < r {
        assert((q + 1) * (q + 1) <= r * r) by (nonlinear_arith)
            requires
                0 <= q,
                q < r,
        ;
    } else if r < q {
        assert((r + 1) * (r + 1) <= q * q) by (nonlinear_arith)
            requires
                0 <= r,
                r < q,
        ;
    }
}

/// Every non-negative integer has a floor square root with the expected
/// bounds.
pub proof fn lemma_sqrt_floor_props(x: int)
    requires
        x >= 0,
    ensures
        sqrt_floor(x) >= 0,
        sqrt_floor(x) * sqrt_floor(x) <= x,
        x < ((sqrt_floor(x) + 1) * (sqrt_floor(x) + 1)),
    decreases x,
{
    if x == 0 {
        lemma_sqrt_floor_unique(0, 0);
    } else {
        lemma_sqrt_floor_props(x - 1);
        let r = sqrt_floor(x - 1);
        if (r + 1) * (r + 1) <= x {
            assert(x == (r + 1) * (r + 1));
            assert(x < ((r + 2) * (r + 2))) by (nonlinear_arith)
                requires
                    x == (r + 1) * (r + 1),
                    r >= 0,
            ;
            lemma_sqrt_floor_unique(x, r + 1);
        } else {
            lemma_sqrt_floor_unique(x, r);
        }
    }
}

/// Euclidean remainder: the representative of `a` modulo `m` in `[0, m)`.
pub fn emod(a: i64, m: i64) -> (r: i64)
    requires
        m > 0,
    ensures
        r as int == (a as int) % (m as int),
        0 <= r < m,
{
    if a >= 0 {
        let r = ((a as u128) % (m as u128)) as i64;
        r
    } else {
        let v: u128 = (-(a as i128)) as u128;
        let t: u128 = v % (m as u128);
        proof {
            let vi = v as int;
            let mi = m as int;
            vstd::arithmetic::div_mod::lemma_fundamental_div_mod(vi, mi);
            let u = vi / mi;
            assert(vi == mi * u + t);
            if t as int != 0 {
                assert((-u - 1) * mi + (mi - t as int) == -(mi * u) - t) by (nonlinear_arith);
                assert(a as int == (-u - 1) * mi + (mi - t as int));
                vstd::arithmetic::div_mod::lemma_fundamental_div_mod_converse(
                    a as int,
                    mi,
                    -u - 1,
                    mi - t as int,
                );
            } else {
                assert((-u) * mi == -(mi * u)) by (nonlinear_arith);
                assert(a as int == (-u) * mi + 0);
                vstd::arithmetic::div_mod::lemma_fundamental_div_mod_converse(a as int, mi, -u, 0);
            }
        }
        if t == 0 {
            0
        } else {
            m - (t as i64)
        }
    }
}

/// One cycle of the dune ripple: a piecewise-quadratic wave through the
/// phase `t` (in scalar units, `SCALE` per full cycle), ranging over
/// `[-SCALE, SCALE]` with zeros at multiples of half a cycle.
pub open spec fn sin_wave_spec(t: i64) -> i64 {
    let m = (t as int) % (SCALE as int);
    let h = (SCALE as int) / 2;
    if m < h {
        (4 * m * (h - m) * SCALE / (h * h)) as i64
    } else {
        (-(4 * (m - h) * (h - (m - h)) * SCALE / (h * h))) as i64
    }
}

proof fn lemma_parabola_bound(m: int, h: int)
    requires
        0 <= m < h,
        h > 0,
    ensures
        0 <= 4 * m * (h - m) <= h * h,
{
    assert(0 <= 4 * m * (h - m) && 4 * m * (h - m) <= h * h) by (nonlinear_arith)
        requires
            0 <= m < h,
    ;
}

/// Evaluate the dune ripple wave at phase `t`.
pub fn sin_wave(t: i64) -> (r: i64)
    ensures
        r == sin_wave_spec(t),
        -SCALE <= r <= SCALE,
{
    let m: i64 = emod(t, SCALE);
    let h: i64 = SCALE / 2;
    proof {
        assert(SCALE as int / 2 == 500_000);
    }
    if m < h {
        proof {
            lemma_parabola_bound(m as int, h as int);
        }
        let num: u128 = 4 * (m as u128) * ((h - m) as u128) * (SCALE as u128);
        let q: u128 = num / ((h as u128) * (h as u128));
        proof {
            assert(q as int == 4 * (m as int) * (h as int - m as int) * (SCALE as int) / ((
            h as int) * (h as int)));
            lemma_scaled_parabola_range(m as int, h as int);
        }
        q as i64
    } else {
        let m2: i64 = m - h;
        proof {
            lemma_parabola_bound(m2 as int, h as int);
        }
        let num: u128 = 4 * (m2 as u128) * ((h - m2) as u128) * (SCALE as u128);
        let q: u128 = num / ((h as u128) * (h as u128));
        proof {
            assert(q as int == 4 * (m2 as int) * (h as int - m2 as int) * (SCALE as int) / ((
            h as int) * (h as int)));
            lemma_scaled_parabola_range(m2 as int, h as int);
        }
        -(q as i64)
    }
}

proof fn lemma_scaled_parabola_range(m: int, h: int)
    requires
        0 <= m < h,
        h == 500_000,
    ensures
        0 <= 4 * m * (h - m) * SCALE / (h * h) <= SCALE,
{
    lemma_parabola_bound(m, h);
    assert(4 * m * (h - m) * SCALE <= h * h * SCALE) by (nonlinear_arith)
        requires
            4 * m * (h - m) <= h * h,
            SCALE == 1_000_000,
    ;
    assert(4 * m * (h - m) * SCALE / (h * h) <= SCALE) by {
        vstd::arithmetic::div_mod::lemma_div_is_ordered(
            4 * m * (h - m) * SCALE,
            h * h * SCALE,
            h * h,
        );
        vstd::arithmetic::div_mod::lemma_div_multiples_vanish(SCALE as int, h * h);
    }
    vstd::arithmetic::div_mod::lemma_div_pos_is_pos(4 * m * (h - m) * SCALE, h * h);
}

} // verus!
