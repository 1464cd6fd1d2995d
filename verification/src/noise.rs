//! Fractal, domain-warped value noise stamped additively onto a height grid.
//!
//! The lattice hash is a pure function of the lattice coordinates and seed:
//! no generator state exists, so two abutting tiles sampled at the same
//! world coordinates agree exactly. Coordinates live on the fixed-point
//! grain, which collapses precision identically on every path to a seam.

use vstd::prelude::*;

verus! {

use crate::MAX_SIZE;
use crate::fixed::SCALE;
use crate::fixed::clamp_i128;
use crate::fixed::clamp_spec;
use crate::fixed::fx_add;
use crate::fixed::fx_add_spec;
use crate::fixed::fx_mul;
use crate::fixed::fx_mul_spec;
use crate::fixed::fx_sub;
use crate::fixed::fx_sub_spec;
use crate::fixed::fx_valid;
use crate::fixed::iabs;
use crate::fixed::lemma_div_trunc_bound;
use crate::height_field::HeightField;
use crate::height_field::at;
use crate::height_field::valid_grid;

/// Parameters of fractal (FBM) noise synthesis. Scalars are fixed-point;
/// the octave count is capped at `MAX_OCTAVES` when applied.
#[derive(Clone, Copy, PartialEq, Eq, Structural)]
pub struct FBMParams {
    pub amplitude: i64,
    pub frequency: i64,
    pub octaves: u32,
    pub lacunarity: i64,
    pub gain: i64,
    pub warp: i64,
    pub seed: u32,
}

impl FBMParams {
    /// All scalar fields representable.
    pub open spec fn wf(&self) -> bool {
        &&& fx_valid(self.amplitude)
        &&& fx_valid(self.frequency)
        &&& fx_valid(self.lacunarity)
        &&& fx_valid(self.gain)
        &&& fx_valid(self.warp)
    }

    pub fn new(
        amplitude: i64,
        frequency: i64,
        octaves: u32,
        lacunarity: i64,
        gain: i64,
        warp: i64,
        seed: u32,
    ) -> (r: FBMParams)
        requires
            fx_valid(amplitude),
            fx_valid(frequency),
            fx_valid(lacunarity),
            fx_valid(gain),
            fx_valid(warp),
        ensures
            r == (FBMParams { amplitude, frequency, octaves, lacunarity, gain, warp, seed }),
            r.wf(),
    {
        FBMParams { amplitude, frequency, octaves, lacunarity, gain, warp, seed }
    }
}

/// Octave layers are capped here regardless of the requested count.
pub const MAX_OCTAVES: u32 = 6;

/// Largest magnitude of a lattice coordinate reachable from a representable
/// sample coordinate.
pub const LAT_MAX: i64 = 0x800_0000_0000;

/// Offset making lattice coordinates non-negative before hashing.
pub const LAT_OFF: i64 = 0x2000_0000_0000_0000;

/// Mixing constants of the lattice hash.
pub const MIX_A: u64 = 0x9E37_79B9_7F4A_7C15;

pub const MIX_B: u64 = 0xC2B2_AE3D_27D4_EB4F;

pub const MIX_C: u64 = 0xFF51_AFD7_ED55_8CCD;

/// Coordinate scaling constants of the domain warp and octave mix, in
/// scalar units (the warp samples low-frequency noise at four distinct,
/// seed-shifted scalings of the base coordinates).
pub const WARP_XA: i64 = 8_123_000;

pub const WARP_XB: i64 = 7_321_000;

pub const WARP_YA: i64 = 5_551_000;

pub const WARP_YB: i64 = 9_173_000;

pub const SEED_MIX_X: i64 = 1_700_000;

pub const SEED_MIX_Y: i64 = 2_100_000;

/// The deterministic 64-bit mix at the core of the lattice hash.
pub open spec fn hash2_spec(a: u64, b: u64) -> u64 {
    let t64 = 0x1_0000_0000_0000_0000int;
    let p1 = (a * MIX_A) % t64;
    let p2 = (b * MIX_B) % t64;
    let s1 = ((p1 + p2) % t64) as u64;
    let s2 = s1 ^ (s1 >> 29);
    let s3 = (((s2 as int) * MIX_C) % t64) as u64;
    s3 ^ (s3 >> 32)
}

fn hash2(a: u64, b: u64) -> (r: u64)
    ensures
        r == hash2_spec(a, b),
{
    proof {
        assert((a as int) * (MIX_A as int) < 0x1_0000_0000_0000_0000 * 0x1_0000_0000_0000_0000 && (
        b as int) * (MIX_B as int) < 0x1_0000_0000_0000_0000 * 0x1_0000_0000_0000_0000) by (
        nonlinear_arith)
            requires
                (a as int) < 0x1_0000_0000_0000_0000,
                (b as int) < 0x1_0000_0000_0000_0000,
                (MIX_A as int) < 0x1_0000_0000_0000_0000,
                (MIX_B as int) < 0x1_0000_0000_0000_0000,
        ;
    }
    let p1: u128 = ((a as u128) * (MIX_A as u128)) % 0x1_0000_0000_0000_0000u128;
    let p2: u128 = ((b as u128) * (MIX_B as u128)) % 0x1_0000_0000_0000_0000u128;
    let s1: u64 = ((p1 + p2) % 0x1_0000_0000_0000_0000u128) as u64;
    let s2: u64 = s1 ^ (s1 >> 29);
    proof {
        assert((s2 as int) * (MIX_C as int) < 0x1_0000_0000_0000_0000 * 0x1_0000_0000_0000_0000)
            by (nonlinear_arith)
            requires
                (s2 as int) < 0x1_0000_0000_0000_0000,
                (MIX_C as int) < 0x1_0000_0000_0000_0000,
        ;
    }
    let s3: u64 = (((s2 as u128) * (MIX_C as u128)) % 0x1_0000_0000_0000_0000u128) as u64;
    s3 ^ (s3 >> 32)
}

/// Hash of one lattice corner, a scalar in `[0, SCALE)`.
pub open spec fn corner_spec(xi: int, yi: int, seed: u32) -> i64 {
    let a = (xi + LAT_OFF) as u64;
    let b = (yi + LAT_OFF) as u64;
    (((hash2_spec(a ^ (seed as u64), b) as int) % (SCALE as int)) as i64)
}

fn corner(xi: i64, yi: i64, seed: u32) -> (r: i64)
    requires
        -LAT_MAX <= xi <= LAT_MAX,
        -LAT_MAX <= yi <= LAT_MAX,
    ensures
        r == corner_spec(xi as int, yi as int, seed),
        0 <= r < SCALE,
{
    let a: u64 = (xi + LAT_OFF) as u64;
    let b: u64 = (yi + LAT_OFF) as u64;
    let h = hash2(a ^ (seed as u64), b);
    (h % (SCALE as u64)) as i64
}

/// Floor division of a scalar by `SCALE` with its remainder: the lattice
/// cell a sample coordinate falls in, and the offset within it.
fn floor_div_scale(x: i64) -> (r: (i64, i64))
    requires
        fx_valid(x),
    ensures
        r.0 as int == (x as int) / (SCALE as int),
        r.1 as int == x as int - (r.0 as int) * SCALE,
        0 <= r.1 < SCALE,
        -LAT_MAX < r.0 < LAT_MAX,
{
    if x >= 0 {
        let q: u128 = (x as u128) / (SCALE as u128);
        let rem: u128 = (x as u128) % (SCALE as u128);
        proof {
            vstd::arithmetic::div_mod::lemma_fundamental_div_mod(x as int, SCALE as int);
            vstd::arithmetic::div_mod::lemma_div_is_ordered(
                x as int,
                0x4000_0000_0000_0000,
                SCALE as int,
            );
        }
        (q as i64, rem as i64)
    } else {
        let v: u128 = (-(x as i128)) as u128;
        let q: u128 = (v + (SCALE as u128) - 1) / (SCALE as u128);
        proof {
            let vi = v as int;
            let s = SCALE as int;
            vstd::arithmetic::div_mod::lemma_fundamental_div_mod(vi + s - 1, s);
            let rr2 = (vi + s - 1) % s;
            assert(q as int * s - vi == s - 1 - rr2) by (nonlinear_arith)
                requires
                    vi + s - 1 == s * (q as int) + rr2,
            ;
            assert((-(q as int)) * s + (q as int * s - vi) == -vi) by (nonlinear_arith);
            vstd::arithmetic::div_mod::lemma_fundamental_div_mod_converse(
                x as int,
                s,
                -(q as int),
                q as int * s - vi,
            );
            vstd::arithmetic::div_mod::lemma_div_is_ordered(
                vi + s - 1,
                0x4000_0000_0000_0000 + s - 1,
                s,
            );
        }
        let qi: i64 = -(q as i64);
        let rem: i64 = x - qi * SCALE;
        (qi, rem)
    }
}

/// Smoothstep easing weight `3t^2 - 2t^3` over the cell offset, scaled so
/// both argument and result are in `[0, SCALE]`.
pub open spec fn smooth_spec(t: int) -> int {
    t * t * (3 * SCALE - 2 * t) / ((SCALE as int) * (SCALE as int))
}

proof fn lemma_smooth_range(t: int)
    requires
        0 <= t <= SCALE,
    ensures
        0 <= t * t <= (SCALE as int) * (SCALE as int),
        0 <= t * t * (3 * SCALE - 2 * t) <= (SCALE as int) * (SCALE as int) * (SCALE as int),
        0 <= smooth_spec(t) <= SCALE,
{
    let s = SCALE as int;
    assert((s - t) * (s - t) * (s + 2 * t) >= 0) by (nonlinear_arith)
        requires
            0 <= t <= s,
    ;
    assert(0 <= t * t <= s * s && 0 <= t * t * (3 * s - 2 * t) && t * t * (3 * s - 2 * t) <= s * s
        * s) by (nonlinear_arith)
        requires
            0 <= t <= s,
            (s - t) * (s - t) * (s + 2 * t) >= 0,
    ;
    vstd::arithmetic::div_mod::lemma_div_is_ordered(t * t * (3 * s - 2 * t), s * s * s, s * s);
    assert(s * s * s == s * (s * s)) by (nonlinear_arith);
    vstd::arithmetic::div_mod::lemma_div_multiples_vanish(s, s * s);
    vstd::arithmetic::div_mod::lemma_div_pos_is_pos(t * t * (3 * s - 2 * t), s * s);
}

fn smooth(t: i64) -> (r: i64)
    requires
        0 <= t < SCALE,
    ensures
        r as int == smooth_spec(t as int),
        0 <= r <= SCALE,
{
    proof {
        lemma_smooth_range(t as int);
    }
    let tt: u128 = (t as u128) * (t as u128);
    let num: u128 = tt * ((3 * SCALE - 2 * t) as u128);
    let q: u128 = num / ((SCALE as u128) * (SCALE as u128));
    q as i64
}

/// Bilinear blend of four corner scalars in `[0, SCALE]` with weights in
/// `[0, SCALE]`.
pub open spec fn bilin_spec(a: i64, b: i64, c: i64, d: i64, u: int, v: int) -> i64 {
    let s = SCALE as int;
    let w1 = (s - u) * (s - v);
    let w2 = u * (s - v);
    let w3 = (s - u) * v;
    let w4 = u * v;
    ((a * w1 + b * w2 + c * w3 + d * w4) / (s * s)) as i64
}

/// A bilinear blend of corners bounded by `hb` stays within `[0, hb]`:
/// the four weights are non-negative and partition `SCALE^2` exactly.
proof fn lemma_bilin_range(a: i64, b: i64, c: i64, d: i64, u: int, v: int, hb: int)
    requires
        0 <= a <= hb,
        0 <= b <= hb,
        0 <= c <= hb,
        0 <= d <= hb,
        hb <= SCALE,
        0 <= u <= SCALE,
        0 <= v <= SCALE,
    ensures
        0 <= ((SCALE as int) - u) * ((SCALE as int) - v) <= (SCALE as int) * (SCALE as int),
        0 <= u * ((SCALE as int) - v) <= (SCALE as int) * (SCALE as int),
        0 <= ((SCALE as int) - u) * v <= (SCALE as int) * (SCALE as int),
        0 <= u * v <= (SCALE as int) * (SCALE as int),
        0 <= a * (((SCALE as int) - u) * ((SCALE as int) - v)) + b * (u * ((SCALE as int) - v)) + c
            * (((SCALE as int) - u) * v) + d * (u * v) <= (SCALE as int) * (SCALE as int) * (
        SCALE as int),
        0 <= bilin_spec(a, b, c, d, u, v) <= hb,
{
    let s = SCALE as int;
    let w1 = (s - u) * (s - v);
    let w2 = u * (s - v);
    let w3 = (s - u) * v;
    let w4 = u * v;
    assert(0 <= w1 <= s * s && 0 <= w2 <= s * s && 0 <= w3 <= s * s && 0 <= w4 <= s * s && w1 + w2
        + w3 + w4 == s * s) by (nonlinear_arith)
        requires
            0 <= u <= s,
            0 <= v <= s,
            w1 == (s - u) * (s - v),
            w2 == u * (s - v),
            w3 == (s - u) * v,
            w4 == u * v,
    ;
    assert(0 <= a * w1 <= hb * w1 && hb * w1 <= s * w1) by (nonlinear_arith)
        requires
            0 <= a <= hb <= s,
            w1 >= 0,
    ;
    assert(0 <= b * w2 <= hb * w2 && hb * w2 <= s * w2) by (nonlinear_arith)
        requires
            0 <= b <= hb <= s,
            w2 >= 0,
    ;
    assert(0 <= c * w3 <= hb * w3 && hb * w3 <= s * w3) by (nonlinear_arith)
        requires
            0 <= c <= hb <= s,
            w3 >= 0,
    ;
    assert(0 <= d * w4 <= hb * w4 && hb * w4 <= s * w4) by (nonlinear_arith)
        requires
            0 <= d <= hb <= s,
            w4 >= 0,
    ;
    assert(hb * w1 + hb * w2 + hb * w3 + hb * w4 == (s * s) * hb && s * w1 + s * w2 + s * w3 + s
        * w4 == s * (s * s)) by (nonlinear_arith)
        requires
            w1 + w2 + w3 + w4 == s * s,
    ;
    let num = a * w1 + b * w2 + c * w3 + d * w4;
    vstd::arithmetic::div_mod::lemma_div_is_ordered(num, (s * s) * hb, s * s);
    vstd::arithmetic::div_mod::lemma_div_multiples_vanish(hb, s * s);
    vstd::arithmetic::div_mod::lemma_div_pos_is_pos(num, s * s);
}

fn bilin(a: i64, b: i64, c: i64, d: i64, u: i64, v: i64) -> (r: i64)
    requires
        0 <= a < SCALE,
        0 <= b < SCALE,
        0 <= c < SCALE,
        0 <= d < SCALE,
        0 <= u <= SCALE,
        0 <= v <= SCALE,
    ensures
        r == bilin_spec(a, b, c, d, u as int, v as int),
        0 <= r < SCALE,
{
    proof {
        lemma_bilin_range(a, b, c, d, u as int, v as int, SCALE - 1);
    }
    let w1: u128 = ((SCALE - u) as u128) * ((SCALE - v) as u128);
    let w2: u128 = (u as u128) * ((SCALE - v) as u128);
    let w3: u128 = ((SCALE - u) as u128) * (v as u128);
    let w4: u128 = (u as u128) * (v as u128);
    let num: u128 = (a as u128) * w1 + (b as u128) * w2 + (c as u128) * w3 + (d as u128) * w4;
    let q: u128 = num / ((SCALE as u128) * (SCALE as u128));
    q as i64
}

/// Two-dimensional value noise at a fixed-point sample coordinate: hash the
/// four surrounding lattice corners, then blend with smoothstep weights.
/// The result lies in `[0, SCALE)`.
pub open spec fn noise_spec(x: i64, y: i64, seed: u32) -> i64 {
    let s = SCALE as int;
    let xi = (x as int) / s;
    let yi = (y as int) / s;
    let xf = x as int - xi * s;
    let yf = y as int - yi * s;
    let u = smooth_spec(xf);
    let v = smooth_spec(yf);
    bilin_spec(
        corner_spec(xi, yi, seed),
        corner_spec(xi + 1, yi, seed),
        corner_spec(xi, yi + 1, seed),
        corner_spec(xi + 1, yi + 1, seed),
        u,
        v,
    )
}

/// Every noise sample is a scalar in `[0, SCALE)`.
pub proof fn lemma_noise_range(x: i64, y: i64, seed: u32)
    ensures
        0 <= noise_spec(x, y, seed) < SCALE,
{
    let s = SCALE as int;
    let xi = (x as int) / s;
    let yi = (y as int) / s;
    let xf = x as int - xi * s;
    let yf = y as int - yi * s;
    vstd::arithmetic::div_mod::lemma_fundamental_div_mod(x as int, s);
    vstd::arithmetic::div_mod::lemma_mod_division_less_than_divisor(x as int, s);
    vstd::arithmetic::div_mod::lemma_fundamental_div_mod(y as int, s);
    vstd::arithmetic::div_mod::lemma_mod_division_less_than_divisor(y as int, s);
    lemma_smooth_range(xf);
    lemma_smooth_range(yf);
    lemma_bilin_range(
        corner_spec(xi, yi, seed),
        corner_spec(xi + 1, yi, seed),
        corner_spec(xi, yi + 1, seed),
        corner_spec(xi + 1, yi + 1, seed),
        smooth_spec(xf),
        smooth_spec(yf),
        SCALE - 1,
    );
}

/// Sample the value noise at a fixed-point coordinate.
pub fn value_noise_2d(x: i64, y: i64, seed: u32) -> (r: i64)
    requires
        fx_valid(x),
        fx_valid(y),
    ensures
        r == noise_spec(x, y, seed),
        0 <= r < SCALE,
{
    let (xi, xf) = floor_div_scale(x);
    let (yi, yf) = floor_div_scale(y);
    let u = smooth(xf);
    let v = smooth(yf);
    let h00 = corner(xi, yi, seed);
    let h10 = corner(xi + 1, yi, seed);
    let h01 = corner(xi, yi + 1, seed);
    let h11 = corner(xi + 1, yi + 1, seed);
    bilin(h00, h10, h01, h11, u, v)
}

/// The seed lifted to a scalar coordinate shift.
pub open spec fn seed_fx_spec(seed: u32) -> i64 {
    ((seed as int) * (SCALE as int)) as i64
}

/// The warped sample offsets for a cell: two independent low-frequency
/// noise reads, scaled by the warp strength.
pub open spec fn warp_x_spec(p: FBMParams, seed: u32, u: i64, v: i64) -> i64 {
    let sf = seed_fx_spec(seed);
    fx_mul_spec(
        noise_spec(
            fx_mul_spec(fx_add_spec(u, sf), WARP_XA),
            fx_mul_spec(fx_sub_spec(v, sf), WARP_XB),
            seed,
        ),
        p.warp,
    )
}

pub open spec fn warp_y_spec(p: FBMParams, seed: u32, u: i64, v: i64) -> i64 {
    let sf = seed_fx_spec(seed);
    fx_mul_spec(
        noise_spec(
            fx_mul_spec(fx_sub_spec(u, sf), WARP_YA),
            fx_mul_spec(fx_add_spec(v, sf), WARP_YB),
            seed,
        ),
        p.warp,
    )
}

/// State of the octave accumulation after `o` layers: current frequency,
/// current layer amplitude, and the accumulated sum.
pub open spec fn fbm_iter_spec(
    p: FBMParams,
    seed: u32,
    u: i64,
    v: i64,
    wx: i64,
    wy: i64,
    o: nat,
) -> (i64, i64, i64)
    decreases o,
{
    if o == 0 {
        (p.frequency, SCALE, 0i64)
    } else {
        let prev = fbm_iter_spec(p, seed, u, v, wx, wy, (o - 1) as nat);
        let f = prev.0;
        let amp = prev.1;
        let sum = prev.2;
        let sf = seed_fx_spec(seed);
        let cx = fx_add_spec(fx_mul_spec(fx_add_spec(u, wx), f), fx_mul_spec(sf, SEED_MIX_X));
        let cy = fx_sub_spec(fx_mul_spec(fx_add_spec(v, wy), f), fx_mul_spec(sf, SEED_MIX_Y));
        let layer = fx_mul_spec(noise_spec(cx, cy, seed), amp);
        (fx_mul_spec(f, p.lacunarity), fx_mul_spec(amp, p.gain), fx_add_spec(sum, layer))
    }
}

/// The effective octave count: the requested count, capped.
pub open spec fn octaves_spec(p: FBMParams) -> nat {
    if p.octaves < MAX_OCTAVES {
        p.octaves as nat
    } else {
        MAX_OCTAVES as nat
    }
}

/// The additive elevation delta FBM contributes at normalized sample
/// coordinates `(u, v)`: the octave sum remapped from `[0, SCALE]` to
/// `[-SCALE, SCALE]` and scaled by the amplitude.
pub open spec fn fbm_delta_at_spec(p: FBMParams, seed: u32, u: i64, v: i64) -> i64 {
    let wx = warp_x_spec(p, seed, u, v);
    let wy = warp_y_spec(p, seed, u, v);
    let sum = fbm_iter_spec(p, seed, u, v, wx, wy, octaves_spec(p)).2;
    let remap = clamp_spec(2 * (sum as int) - SCALE);
    fx_mul_spec(remap, p.amplitude)
}

/// Normalized coordinate of a grid index: `x * SCALE / n`.
pub open spec fn norm_coord_spec(x: int, n: int) -> i64 {
    ((x * SCALE) / n) as i64
}

/// The FBM delta for cell `(x, y)` of a grid of side `n`.
pub open spec fn fbm_delta_spec(p: FBMParams, seed: u32, n: int, x: int, y: int) -> i64 {
    fbm_delta_at_spec(p, seed, norm_coord_spec(x, n), norm_coord_spec(y, n))
}

/// The whole grid after one FBM stamp.
pub open spec fn fbm_grid_spec(s: Seq<i64>, n: int, p: FBMParams, seed: u32) -> Seq<i64> {
    Seq::new(s.len(), |q: int| fx_add_spec(s[q], fbm_delta_spec(p, seed, n, q % n, q / n)))
}

fn seed_fx(seed: u32) -> (r: i64)
    ensures
        r == seed_fx_spec(seed),
        0 <= r <= 0x1_0000_0000i64 * 0x10_0000i64,
        fx_valid(r),
{
    (seed as i64) * SCALE
}

/// The FBM delta at normalized coordinates `(u, v)`.
fn fbm_delta_at(p: &FBMParams, seed: u32, u: i64, v: i64) -> (r: i64)
    requires
        p.wf(),
        fx_valid(u),
        fx_valid(v),
    ensures
        r == fbm_delta_at_spec(*p, seed, u, v),
        fx_valid(r),
{
    let sf = seed_fx(seed);
    let wx = fx_mul(value_noise_2d(fx_mul(fx_add(u, sf), WARP_XA), fx_mul(fx_sub(v, sf), WARP_XB), seed), p.warp);
    let wy = fx_mul(value_noise_2d(fx_mul(fx_sub(u, sf), WARP_YA), fx_mul(fx_add(v, sf), WARP_YB), seed), p.warp);
    let octs: u32 = if p.octaves < MAX_OCTAVES {
        p.octaves
    } else {
        MAX_OCTAVES
    };
    let mut freq: i64 = p.frequency;
    let mut amp: i64 = SCALE;
    let mut sum: i64 = 0;
    let mut o: u32 = 0;
    while o < octs
        invariant
            o <= octs,
            octs == octaves_spec(*p),
            p.wf(),
            fx_valid(u),
            fx_valid(v),
            fx_valid(wx),
            fx_valid(wy),
            fx_valid(freq),
            fx_valid(amp),
            fx_valid(sum),
            sf == seed_fx_spec(seed),
            wx == warp_x_spec(*p, seed, u, v),
            wy == warp_y_spec(*p, seed, u, v),
            (freq, amp, sum) == fbm_iter_spec(*p, seed, u, v, wx, wy, o as nat),
        decreases octs - o,
    {
        let cx = fx_add(fx_mul(fx_add(u, wx), freq), fx_mul(sf, SEED_MIX_X));
        let cy = fx_sub(fx_mul(fx_add(v, wy), freq), fx_mul(sf, SEED_MIX_Y));
        let layer = fx_mul(value_noise_2d(cx, cy, seed), amp);
        sum = fx_add(sum, layer);
        freq = fx_mul(freq, p.lacunarity);
        amp = fx_mul(amp, p.gain);
        o = o + 1;
    }
    let remap = clamp_i128(2 * (sum as i128) - (SCALE as i128));
    fx_mul(remap, p.amplitude)
}

/// Stamp FBM noise onto the grid: every cell gains the delta of its
/// normalized coordinates — existing elevations are kept and added to.
pub fn apply_fbm(field: &mut HeightField, params: &FBMParams, seed: u32)
    requires
        old(field).wf(),
        params.wf(),
        old(field).spec_size() >= 1,
    ensures
        final(field).wf(),
        final(field).spec_size() == old(field).spec_size(),
        forall|x: int, y: int|
            0 <= x < old(field).spec_size() && 0 <= y < old(field).spec_size() ==> #[trigger] at(
                final(field)@,
                old(field).spec_size(),
                x,
                y,
            ) == fx_add_spec(
                at(old(field)@, old(field).spec_size(), x, y),
                fbm_delta_spec(*params, seed, old(field).spec_size(), x, y),
            ),
        final(field)@ == fbm_grid_spec(old(field)@, old(field).spec_size(), *params, seed),
{
    let n = field.size();
    let src = field.cells();
    let ghost s0 = field@;
    proof {
        assert(n * n <= 0xFFFF_FFFFusize && 1 <= n * n) by (nonlinear_arith)
            requires
                1 <= n <= 65535,
        ;
    }
    let len: usize = n * n;
    let mut out: Vec<i64> = Vec::new();
    let mut k: usize = 0;
    while k < len
        invariant
            k <= len,
            len == n * n,
            1 <= n <= MAX_SIZE,
            field.wf(),
            n == field.spec_size(),
            s0 == field@,
            params.wf(),
            out@.len() == k,
            forall|q: int|
                0 <= q < k ==> #[trigger] out@[q] == fx_add_spec(
                    s0[q],
                    fbm_delta_spec(*params, seed, n as int, q % (n as int), q / (n as int)),
                ) && fx_valid(out@[q]),
        decreases len - k,
    {
        let x: usize = k % n;
        let y: usize = k / n;
        proof {
            vstd::arithmetic::div_mod::lemma_fundamental_div_mod(k as int, n as int);
            assert((k as int) / (n as int) < n) by (nonlinear_arith)
                requires
                    (k as int) < (n as int) * (n as int),
                    0 < n as int,
                    (n as int) * ((k as int) / (n as int)) + (k as int) % (n as int) == k as int,
                    0 <= (k as int) % (n as int) < n as int,
            ;
        }
        let u = norm_coord(x, n);
        let v = norm_coord(y, n);
        let d = fbm_delta_at(params, seed, u, v);
        let cell = fx_add(field.cells()[k], d);
        out.push(cell);
        k = k + 1;
    }
    proof {
        assert(valid_grid(out@, n as int));
        assert(out@ =~= fbm_grid_spec(s0, n as int, *params, seed));
    }
    field.replace_cells(out);
    proof {
        assert forall|x: int, y: int|
            0 <= x < n && 0 <= y < n implies #[trigger] at(field@, n as int, x, y) == fx_add_spec(
            at(s0, n as int, x, y),
            fbm_delta_spec(*params, seed, n as int, x, y),
        ) by {
            let q = y * (n as int) + x;
            assert(0 <= q < (n as int) * (n as int)) by (nonlinear_arith)
                requires
                    0 <= x < n as int,
                    0 <= y < n as int,
                    q == y * (n as int) + x,
            ;
            vstd::arithmetic::div_mod::lemma_fundamental_div_mod_converse(q, n as int, y, x);
        }
    }
}

/// Normalized coordinate `x * SCALE / n` of a grid index.
fn norm_coord(x: usize, n: usize) -> (r: i64)
    requires
        1 <= n <= MAX_SIZE,
        x < n,
    ensures
        r == norm_coord_spec(x as int, n as int),
        0 <= r < SCALE,
        fx_valid(r),
{
    proof {
        assert((x as int) * SCALE < (n as int) * SCALE) by (nonlinear_arith)
            requires
                0 <= (x as int) < (n as int),
                SCALE as int > 0,
        ;
        vstd::arithmetic::div_mod::lemma_multiply_divide_lt((x as int) * SCALE, n as int, SCALE as int);
        vstd::arithmetic::div_mod::lemma_div_pos_is_pos((x as int) * SCALE, n as int);
    }
    let num: u128 = (x as u128) * (SCALE as u128);
    let q: u128 = num / (n as u128);
    q as i64
}

/// World coordinates of a grid cell inside a tile at `(tile_col, tile_row)`
/// (both fixed-point), scaled by `world_scale`.
pub open spec fn world_uv_spec(
    x: int,
    y: int,
    n: int,
    tile_col: i64,
    tile_row: i64,
    world_scale: i64,
) -> (i64, i64) {
    (
        fx_mul_spec(fx_add_spec(tile_col, norm_coord_spec(x, n)), world_scale),
        fx_mul_spec(fx_add_spec(tile_row, norm_coord_spec(y, n)), world_scale),
    )
}

/// World-space cell coordinates for seamless multi-tile generation.
pub fn default_world_uv(
    x: usize,
    y: usize,
    n: usize,
    tile_col: i64,
    tile_row: i64,
    world_scale: i64,
) -> (r: (i64, i64))
    requires
        1 <= n <= MAX_SIZE,
        x < n,
        y < n,
        fx_valid(tile_col),
        fx_valid(tile_row),
        fx_valid(world_scale),
    ensures
        r == world_uv_spec(x as int, y as int, n as int, tile_col, tile_row, world_scale),
        fx_valid(r.0),
        fx_valid(r.1),
{
    let u = norm_coord(x, n);
    let v = norm_coord(y, n);
    (fx_mul(fx_add(tile_col, u), world_scale), fx_mul(fx_add(tile_row, v), world_scale))
}

/// Stamp FBM noise for one tile of a larger world: cell coordinates come
/// from `world_uv_spec`, so abutting tiles sample identical world points
/// along their shared border.
pub fn apply_fbm_for_tile(
    field: &mut HeightField,
    params: &FBMParams,
    seed: u32,
    tile_row: i64,
    tile_col: i64,
    world_scale: i64,
)
    requires
        old(field).wf(),
        params.wf(),
        old(field).spec_size() >= 1,
        fx_valid(tile_row),
        fx_valid(tile_col),
        fx_valid(world_scale),
    ensures
        final(field).wf(),
        final(field).spec_size() == old(field).spec_size(),
        forall|x: int, y: int|
            0 <= x < old(field).spec_size() && 0 <= y < old(field).spec_size() ==> #[trigger] at(
                final(field)@,
                old(field).spec_size(),
                x,
                y,
            ) == fx_add_spec(
                at(old(field)@, old(field).spec_size(), x, y),
                fbm_delta_at_spec(
                    *params,
                    seed,
                    world_uv_spec(x, y, old(field).spec_size(), tile_col, tile_row, world_scale).0,
                    world_uv_spec(x, y, old(field).spec_size(), tile_col, tile_row, world_scale).1,
                ),
            ),
{
    let n = field.size();
    let ghost s0 = field@;
    proof {
        assert(n * n <= 0xFFFF_FFFFusize && 1 <= n * n) by (nonlinear_arith)
            requires
                1 <= n <= 65535,
        ;
    }
    let len: usize = n * n;
    let mut out: Vec<i64> = Vec::new();
    let mut k: usize = 0;
    while k < len
        invariant
            k <= len,
            len == n * n,
            1 <= n <= MAX_SIZE,
            field.wf(),
            n == field.spec_size(),
            s0 == field@,
            params.wf(),
            fx_valid(tile_row),
            fx_valid(tile_col),
            fx_valid(world_scale),
            out@.len() == k,
            forall|q: int|
                0 <= q < k ==> #[trigger] out@[q] == fx_add_spec(
                    s0[q],
                    fbm_delta_at_spec(
                        *params,
                        seed,
                        world_uv_spec(
                            q % (n as int),
                            q / (n as int),
                            n as int,
                            tile_col,
                            tile_row,
                            world_scale,
                        ).0,
                        world_uv_spec(
                            q % (n as int),
                            q / (n as int),
                            n as int,
                            tile_col,
                            tile_row,
                            world_scale,
                        ).1,
                    ),
                ) && fx_valid(out@[q]),
        decreases len - k,
    {
        let x: usize = k % n;
        let y: usize = k / n;
        proof {
            vstd::arithmetic::div_mod::lemma_fundamental_div_mod(k as int, n as int);
            assert((k as int) / (n as int) < n) by (nonlinear_arith)
                requires
                    (k as int) < (n as int) * (n as int),
                    0 < n as int,
                    (n as int) * ((k as int) / (n as int)) + (k as int) % (n as int) == k as int,
                    0 <= (k as int) % (n as int) < n as int,
            ;
        }
        let (u, v) = default_world_uv(x, y, n, tile_col, tile_row, world_scale);
        let d = fbm_delta_at(params, seed, u, v);
        let cell = fx_add(field.cells()[k], d);
        out.push(cell);
        k = k + 1;
    }
    proof {
        assert(valid_grid(out@, n as int));
    }
    field.replace_cells(out);
    proof {
        assert forall|x: int, y: int|
            0 <= x < n && 0 <= y < n implies #[trigger] at(field@, n as int, x, y) == fx_add_spec(
            at(s0, n as int, x, y),
            fbm_delta_at_spec(
                *params,
                seed,
                world_uv_spec(x, y, n as int, tile_col, tile_row, world_scale).0,
                world_uv_spec(x, y, n as int, tile_col, tile_row, world_scale).1,
            ),
        ) by {
            let q = y * (n as int) + x;
            assert(0 <= q < (n as int) * (n as int)) by (nonlinear_arith)
                requires
                    0 <= x < n as int,
                    0 <= y < n as int,
                    q == y * (n as int) + x,
            ;
            vstd::arithmetic::div_mod::lemma_fundamental_div_mod_converse(q, n as int, y, x);
        }
    }
}

/// Stamping the same parameters and seed onto two grids with equal contents
/// yields equal results, cell for cell: the synthesis is a pure function of
/// `(grid, params, seed)`.
pub proof fn lemma_fbm_deterministic(
    g: Seq<i64>,
    n: int,
    r1: Seq<i64>,
    r2: Seq<i64>,
    p: FBMParams,
    seed: u32,
)
    requires
        n >= 1,
        g.len() == n * n,
        r1.len() == g.len(),
        r2.len() == g.len(),
        forall|x: int, y: int|
            0 <= x < n && 0 <= y < n ==> #[trigger] at(r1, n, x, y) == fx_add_spec(
                at(g, n, x, y),
                fbm_delta_spec(p, seed, n, x, y),
            ),
        forall|x: int, y: int|
            0 <= x < n && 0 <= y < n ==> #[trigger] at(r2, n, x, y) == fx_add_spec(
                at(g, n, x, y),
                fbm_delta_spec(p, seed, n, x, y),
            ),
    ensures
        r1 == r2,
{
    assert forall|q: int| 0 <= q < r1.len() implies r1[q] == r2[q] by {
        let x = q % n;
        let y = q / n;
        vstd::arithmetic::div_mod::lemma_fundamental_div_mod(q, n);
        assert(0 <= x < n && 0 <= y < n && y * n + x == q) by (nonlinear_arith)
            requires
                0 <= q < n * n,
                0 < n,
                n * (q / n) + q % n == q,
                0 <= q % n < n,
                x == q % n,
                y == q / n,
        ;
        assert(at(r1, n, x, y) == at(r2, n, x, y));
    }
    assert(r1 =~= r2);
}

/// With a single octave the stamped delta can overshoot the existing
/// elevation by at most the amplitude in either direction.
pub proof fn lemma_single_octave_bound(p: FBMParams, seed: u32, n: int, x: int, y: int)
    requires
        p.wf(),
        octaves_spec(p) == 1,
        p.amplitude >= 0,
    ensures
        -p.amplitude <= fbm_delta_spec(p, seed, n, x, y) <= p.amplitude,
{
    let u = norm_coord_spec(x, n);
    let v = norm_coord_spec(y, n);
    let wx = warp_x_spec(p, seed, u, v);
    let wy = warp_y_spec(p, seed, u, v);
    let st0 = fbm_iter_spec(p, seed, u, v, wx, wy, 0);
    let st1 = fbm_iter_spec(p, seed, u, v, wx, wy, 1);
    let sf = seed_fx_spec(seed);
    let cx = fx_add_spec(fx_mul_spec(fx_add_spec(u, wx), st0.0), fx_mul_spec(sf, SEED_MIX_X));
    let cy = fx_sub_spec(fx_mul_spec(fx_add_spec(v, wy), st0.0), fx_mul_spec(sf, SEED_MIX_Y));
    let nz = noise_spec(cx, cy, seed);
    lemma_noise_range(cx, cy, seed);
    assert(st0.1 == SCALE && st0.2 == 0i64);
    let layer = fx_mul_spec(nz, SCALE);
    assert(layer == nz) by {
        assert((nz as int) * (SCALE as int) == (SCALE as int) * (nz as int)) by (nonlinear_arith);
        vstd::arithmetic::div_mod::lemma_div_multiples_vanish(nz as int, SCALE as int);
    }
    assert(st1.2 == fx_add_spec(0i64, layer));
    assert(st1.2 == nz);
    let remap = clamp_spec(2 * (nz as int) - SCALE);
    assert(-SCALE <= remap <= SCALE);
    let d = fx_mul_spec(remap, p.amplitude);
    assert(iabs((remap as int) * (p.amplitude as int)) <= (p.amplitude as int) * (SCALE as int))
        by (nonlinear_arith)
        requires
            -(SCALE as int) <= remap as int <= SCALE as int,
            p.amplitude >= 0,
    ;
    lemma_div_trunc_bound((remap as int) * (p.amplitude as int), SCALE as int, p.amplitude as int);
    assert(-p.amplitude <= d <= p.amplitude);
}

} // verus!
