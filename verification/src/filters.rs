//! Local convolution-like passes over a height grid: slope-adaptive box
//! blur, Laplacian ridge sharpening, directional dune ripples, talus-bounded
//! thermal relaxation and plain 3x3 smoothing.
//!
//! Every pass is double-buffered: one pass reads only the grid as it stood
//! when the pass began.

use vstd::prelude::*;

verus! {

use crate::MAX_SIZE;
use crate::fixed::SCALE;
use crate::fixed::clamp_i128;
use crate::fixed::clamp_spec;
use crate::fixed::div_trunc;
use crate::fixed::div_trunc_i128;
use crate::fixed::fx_add_spec;
use crate::fixed::fx_mul;
use crate::fixed::fx_mul_spec;
use crate::fixed::fx_sub_spec;
use crate::fixed::fx_valid;
use crate::fixed::iabs;
use crate::fixed::isqrt;
use crate::fixed::sin_wave;
use crate::fixed::sin_wave_spec;
use crate::fixed::sqrt_floor;
use crate::fixed::lemma_sqrt_floor_unique;
use crate::fixed::fx_add;
use crate::fixed::fx_sub;
use crate::height_field::HeightField;
use crate::height_field::at;
use crate::height_field::at_clamped;
use crate::height_field::valid_grid;

/// One tenth, as a scalar factor.
pub const TENTH: i64 = 100_000;

/// One half, as a scalar factor.
pub const HALF: i64 = 500_000;

/// Largest blur radius (in scalar units) the parameters may carry: one
/// million cells, far past any real grid, yet small enough that a window
/// sum always fits a wide intermediate.
pub const MAX_RADIUS: i64 = 1_000_000_000_000;

/// Parameters of the slope-adaptive blur: base radius (scalar units),
/// slope sensitivity `k`, and pass count.
#[derive(Clone, Copy, PartialEq, Eq, Structural)]
pub struct SlopeBlurParams {
    pub radius: i64,
    pub k: i64,
    pub iterations: u32,
}

impl SlopeBlurParams {
    pub open spec fn wf(&self) -> bool {
        &&& 0 <= self.radius <= MAX_RADIUS
        &&& 0 <= self.k <= SCALE
    }

    pub fn new(radius: i64, k: i64, iterations: u32) -> (r: SlopeBlurParams)
        requires
            0 <= radius <= MAX_RADIUS,
            0 <= k <= SCALE,
        ensures
            r == (SlopeBlurParams { radius, k, iterations }),
            r.wf(),
    {
        SlopeBlurParams { radius, k, iterations }
    }
}

/// Parameters of the dune ripple: spatial scale, amplitude, and the ripple
/// direction as a fixed-point unit vector `(cos, sin)` of the dune angle.
#[derive(Clone, Copy, PartialEq, Eq, Structural)]
pub struct DuneParams {
    pub scale: i64,
    pub amplitude: i64,
    pub dir_x: i64,
    pub dir_y: i64,
}

impl DuneParams {
    pub open spec fn wf(&self) -> bool {
        &&& fx_valid(self.scale)
        &&& fx_valid(self.amplitude)
        &&& -SCALE <= self.dir_x <= SCALE
        &&& -SCALE <= self.dir_y <= SCALE
    }

    pub fn new(scale: i64, amplitude: i64, dir_x: i64, dir_y: i64) -> (r: DuneParams)
        requires
            fx_valid(scale),
            fx_valid(amplitude),
            -SCALE <= dir_x <= SCALE,
            -SCALE <= dir_y <= SCALE,
        ensures
            r == (DuneParams { scale, amplitude, dir_x, dir_y }),
            r.wf(),
    {
        DuneParams { scale, amplitude, dir_x, dir_y }
    }
}

/// Clamped read of a raw grid at signed coordinates.
pub fn grid_get_clamped(src: &Vec<i64>, n: usize, x: i64, y: i64) -> (r: i64)
    requires
        valid_grid(src@, n as int),
        1 <= n <= MAX_SIZE,
    ensures
        r == at_clamped(src@, n as int, x as int, y as int),
        fx_valid(r),
{
    let xc: usize = if x < 0 {
        0
    } else if x >= n as i64 {
        n - 1
    } else {
        x as usize
    };
    let yc: usize = if y < 0 {
        0
    } else if y >= n as i64 {
        n - 1
    } else {
        y as usize
    };
    proof {
        assert(yc * n + xc < n * n && n * n <= 0xFFFF_FFFFusize) by (nonlinear_arith)
            requires
                xc < n,
                yc < n,
                n <= 65535,
        ;
    }
    src[yc * n + xc]
}

/// Local slope at a cell: the magnitude of the central-difference gradient.
pub open spec fn slope_spec(s: Seq<i64>, n: int, x: int, y: int) -> int {
    let gx = div_trunc(
        at_clamped(s, n, x + 1, y) - at_clamped(s, n, x - 1, y),
        2,
    );
    let gy = div_trunc(
        at_clamped(s, n, x, y + 1) - at_clamped(s, n, x, y - 1),
        2,
    );
    sqrt_floor(gx * gx + gy * gy)
}

/// Central-difference slope magnitude at `(x, y)`.
pub fn slope_at(field: &HeightField, x: usize, y: usize) -> (r: i64)
    requires
        field.wf(),
        field.spec_size() >= 1,
        x < field.spec_size(),
        y < field.spec_size(),
    ensures
        r as int == slope_spec(field@, field.spec_size(), x as int, y as int),
        0 <= r,
{
    grid_slope_at(field.cells(), field.size(), x as i64, y as i64)
}

/// Central-difference slope magnitude over a raw grid.
fn grid_slope_at(src: &Vec<i64>, n: usize, x: i64, y: i64) -> (r: i64)
    requires
        valid_grid(src@, n as int),
        1 <= n <= MAX_SIZE,
        -0x20_0000 <= x <= 0x20_0000,
        -0x20_0000 <= y <= 0x20_0000,
    ensures
        r as int == slope_spec(src@, n as int, x as int, y as int),
        0 <= r,
{
    let e = grid_get_clamped(src, n, x + 1, y);
    let w = grid_get_clamped(src, n, x - 1, y);
    let s = grid_get_clamped(src, n, x, y + 1);
    let nn = grid_get_clamped(src, n, x, y - 1);
    let gx: i128 = div_trunc_i128((e as i128) - (w as i128), 2);
    let gy: i128 = div_trunc_i128((s as i128) - (nn as i128), 2);
    proof {
        crate::fixed::lemma_div_trunc_bound((e as int) - (w as int), 2, 0x4000_0000_0000_0000);
        crate::fixed::lemma_div_trunc_bound((s as int) - (nn as int), 2, 0x4000_0000_0000_0000);
        assert((gx as int) * (gx as int) + (gy as int) * (gy as int)
            < 0x4000_0000_0000_0000_0000_0000_0000_0000 && (gx as int) * (gx as int) >= 0 && (
        gy as int) * (gy as int) >= 0) by (nonlinear_arith)
            requires
                iabs(gx as int) <= 0x4000_0000_0000_0000,
                iabs(gy as int) <= 0x4000_0000_0000_0000,
        ;
    }
    let sq: u128 = ((gx * gx) as u128) + ((gy * gy) as u128);
    let root: u64 = isqrt(sq);
    proof {
        lemma_sqrt_floor_unique(sq as int, root as int);
        assert((root as int) * (root as int) < 0x4000_0000_0000_0000_0000_0000_0000_0000);
        assert((root as int) <= 0x7FFF_FFFF_FFFF_FFFF) by (nonlinear_arith)
            requires
                (root as int) * (root as int) < 0x4000_0000_0000_0000_0000_0000_0000_0000,
                root as int >= 0,
        ;
    }
    root as i64
}

/// Box-blur radius for a cell: shrinks with slope, never below one cell.
pub open spec fn blur_radius_spec(s: Seq<i64>, n: int, x: int, y: int, p: SlopeBlurParams) -> int {
    let sl = slope_spec(s, n, x, y);
    let t = if sl * 10 > SCALE {
        SCALE as int
    } else {
        sl * 10
    };
    let f = fx_sub_spec(SCALE, fx_mul_spec(p.k, clamp_spec(t)));
    let r = div_trunc(fx_mul_spec(p.radius, f) as int, SCALE as int);
    if r < 1 {
        1
    } else {
        r
    }
}

/// Sum of one clamped row segment of `w` cells starting at `x0`.
pub open spec fn win_row_sum(s: Seq<i64>, n: int, y: int, x0: int, w: nat) -> int
    decreases w,
{
    if w == 0 {
        0
    } else {
        win_row_sum(s, n, y, x0, (w - 1) as nat) + at_clamped(s, n, x0 + w - 1, y)
    }
}

/// Sum of a clamped `w x rows` window with top-left corner `(x0, y0)`.
pub open spec fn win_sum(s: Seq<i64>, n: int, x0: int, y0: int, w: nat, rows: nat) -> int
    decreases rows,
{
    if rows == 0 {
        0
    } else {
        win_sum(s, n, x0, y0, w, (rows - 1) as nat) + win_row_sum(s, n, y0 + rows - 1, x0, w)
    }
}

/// One blurred cell: the average of the clamped square window whose radius
/// the local slope picked.
pub open spec fn blur_cell_spec(s: Seq<i64>, n: int, x: int, y: int, p: SlopeBlurParams) -> i64 {
    let r = blur_radius_spec(s, n, x, y, p);
    let w = (2 * r + 1) as nat;
    clamp_spec(div_trunc(win_sum(s, n, x - r, y - r, w, w), (2 * r + 1) * (2 * r + 1)))
}

/// The whole grid after one slope-blur pass.
pub open spec fn blur_pass_spec(s: Seq<i64>, n: int, p: SlopeBlurParams) -> Seq<i64> {
    Seq::new(s.len(), |q: int| blur_cell_spec(s, n, q % n, q / n, p))
}

/// The grid after `it` slope-blur passes.
pub open spec fn blur_iter_spec(s: Seq<i64>, n: int, p: SlopeBlurParams, it: nat) -> Seq<i64>
    decreases it,
{
    if it == 0 {
        s
    } else {
        blur_pass_spec(blur_iter_spec(s, n, p, (it - 1) as nat), n, p)
    }
}

/// Blurring never changes the grid's shape.
pub proof fn lemma_blur_iter_len(s: Seq<i64>, n: int, p: SlopeBlurParams, it: nat)
    ensures
        blur_iter_spec(s, n, p, it).len() == s.len(),
    decreases it,
{
    if it > 0 {
        lemma_blur_iter_len(s, n, p, (it - 1) as nat);
    }
}

/// The blur radius for a cell, in cells.
fn blur_radius(src: &Vec<i64>, n: usize, x: usize, y: usize, p: &SlopeBlurParams) -> (r: i64)
    requires
        valid_grid(src@, n as int),
        1 <= n <= MAX_SIZE,
        x < n,
        y < n,
        p.wf(),
    ensures
        r as int == blur_radius_spec(src@, n as int, x as int, y as int, *p),
        1 <= r <= 0x10_0000,
{
    let sl = grid_slope_at(src, n, x as i64, y as i64);
    let t: i64 = if sl > SCALE / 10 {
        SCALE
    } else {
        sl * 10
    };
    proof {
        let sli = sl as int;
        if sli > SCALE as int / 10 {
            assert(sli * 10 > SCALE) by (nonlinear_arith)
                requires
                    sli > SCALE as int / 10,
                    SCALE as int / 10 == 100_000,
            ;
        } else {
            assert(sli * 10 <= SCALE) by (nonlinear_arith)
                requires
                    0 <= sli <= SCALE as int / 10,
                    SCALE as int / 10 == 100_000,
            ;
        }
        assert(clamp_spec(t as int) == t);
    }
    let kt = fx_mul(p.k, t);
    proof {
        assert(0 <= (p.k as int) * (t as int) <= (SCALE as int) * (SCALE as int)) by (
        nonlinear_arith)
            requires
                0 <= p.k as int <= SCALE as int,
                0 <= t as int <= SCALE as int,
        ;
        vstd::arithmetic::div_mod::lemma_div_is_ordered(
            (p.k as int) * (t as int),
            (SCALE as int) * (SCALE as int),
            SCALE as int,
        );
        vstd::arithmetic::div_mod::lemma_div_multiples_vanish(SCALE as int, SCALE as int);
        assert((SCALE as int) * (SCALE as int) / (SCALE as int) == SCALE as int);
        vstd::arithmetic::div_mod::lemma_div_pos_is_pos((p.k as int) * (t as int), SCALE as int);
        assert(0 <= kt <= SCALE);
    }
    let f = crate::fixed::fx_sub(SCALE, kt);
    proof {
        assert(0 <= f <= SCALE);
    }
    let rfx = fx_mul(p.radius, f);
    proof {
        assert(0 <= (p.radius as int) * (f as int) <= (MAX_RADIUS as int) * (SCALE as int)) by (
        nonlinear_arith)
            requires
                0 <= p.radius as int <= MAX_RADIUS as int,
                0 <= f as int <= SCALE as int,
        ;
        vstd::arithmetic::div_mod::lemma_div_is_ordered(
            (p.radius as int) * (f as int),
            (MAX_RADIUS as int) * (SCALE as int),
            SCALE as int,
        );
        assert((MAX_RADIUS as int) * (SCALE as int) == (SCALE as int) * (MAX_RADIUS as int)) by (
        nonlinear_arith);
        vstd::arithmetic::div_mod::lemma_div_multiples_vanish(MAX_RADIUS as int, SCALE as int);
        vstd::arithmetic::div_mod::lemma_div_pos_is_pos((p.radius as int) * (f as int), SCALE as int);
        assert(0 <= rfx <= MAX_RADIUS);
    }
    let rc = crate::fixed::sdiv(rfx, SCALE);
    proof {
        vstd::arithmetic::div_mod::lemma_div_is_ordered(rfx as int, MAX_RADIUS as int, SCALE as int);
        vstd::arithmetic::div_mod::lemma_div_pos_is_pos(rfx as int, SCALE as int);
        assert(MAX_RADIUS as int / (SCALE as int) == 1_000_000);
        assert(0 <= rc <= 1_000_000);
    }
    if rc < 1 {
        1
    } else {
        rc
    }
}

/// One blurred cell.
fn blur_cell(src: &Vec<i64>, n: usize, x: usize, y: usize, p: &SlopeBlurParams) -> (r: i64)
    requires
        valid_grid(src@, n as int),
        1 <= n <= MAX_SIZE,
        x < n,
        y < n,
        p.wf(),
    ensures
        r == blur_cell_spec(src@, n as int, x as int, y as int, *p),
        fx_valid(r),
{
    let rad = blur_radius(src, n, x, y, p);
    let w: i64 = 2 * rad + 1;
    let x0: i64 = (x as i64) - rad;
    let y0: i64 = (y as i64) - rad;
    let mut sum: i128 = 0;
    let mut jj: i64 = 0;
    while jj < w
        invariant
            0 <= jj <= w,
            w == 2 * rad + 1,
            1 <= rad <= 0x10_0000,
            -0x10_0000 <= x0 <= 0x1_0000,
            -0x10_0000 <= y0 <= 0x1_0000,
            valid_grid(src@, n as int),
            1 <= n <= MAX_SIZE,
            sum == win_sum(src@, n as int, x0 as int, y0 as int, w as nat, jj as nat),
            iabs(sum as int) <= (jj as int) * (w as int) * 0x4000_0000_0000_0000,
        decreases w - jj,
    {
        let mut ii: i64 = 0;
        let mut rowsum: i128 = 0;
        while ii < w
            invariant
                0 <= ii <= w,
                0 <= jj < w,
                w == 2 * rad + 1,
                1 <= rad <= 0x10_0000,
                -0x10_0000 <= x0 <= 0x1_0000,
                -0x10_0000 <= y0 <= 0x1_0000,
                valid_grid(src@, n as int),
                1 <= n <= MAX_SIZE,
                rowsum == win_row_sum(src@, n as int, y0 as int + jj, x0 as int, ii as nat),
                iabs(rowsum as int) <= (ii as int) * 0x4000_0000_0000_0000,
            decreases w - ii,
        {
            let cell = grid_get_clamped(src, n, x0 + ii, y0 + jj);
            rowsum = rowsum + (cell as i128);
            proof {
                assert((ii as int) * 0x4000_0000_0000_0000 + 0x4000_0000_0000_0000 == (ii as int
                    + 1) * 0x4000_0000_0000_0000) by (nonlinear_arith);
            }
            ii = ii + 1;
        }
        proof {
            assert((jj as int) * (w as int) * 0x4000_0000_0000_0000 + (w as int)
                * 0x4000_0000_0000_0000 == ((jj as int) + 1) * (w as int) * 0x4000_0000_0000_0000
                && ((jj as int) + 1) * (w as int) * 0x4000_0000_0000_0000 <= (w as int) * (w as int)
                * 0x4000_0000_0000_0000 && (w as int) * (w as int) * 0x4000_0000_0000_0000
                <= 0x1_0000_0000_0000_0000_0000_0000_0000) by (nonlinear_arith)
                requires
                    0 <= jj < w as int,
                    w as int <= 0x20_0001,
            ;
        }
        sum = sum + rowsum;
        jj = jj + 1;
    }
    proof {
        assert((w as int) * (w as int) <= 0x20_0001 * 0x20_0001 && (w as int) * (w as int) > 0) by (
        nonlinear_arith)
            requires
                1 <= w as int <= 0x20_0001,
        ;
    }
    let cnt: i128 = (w as i128) * (w as i128);
    proof {
        assert(cnt == (2 * (rad as int) + 1) * (2 * (rad as int) + 1)) by (nonlinear_arith)
            requires
                cnt == (w as int) * (w as int),
                w as int == 2 * (rad as int) + 1,
        ;
        assert(sum > i128::MIN);
    }
    let q = div_trunc_i128(sum, cnt);
    clamp_i128(q)
}

/// Blur the grid `iterations` times; each pass reads only the previous
/// pass's result (double-buffered), and every cell becomes the average of
/// its slope-sized clamped window.
pub fn apply_slope_blur(field: &mut HeightField, params: &SlopeBlurParams)
    requires
        old(field).wf(),
        old(field).spec_size() >= 1,
        params.wf(),
    ensures
        final(field).wf(),
        final(field).spec_size() == old(field).spec_size(),
        final(field)@ == blur_iter_spec(
            old(field)@,
            old(field).spec_size(),
            *params,
            params.iterations as nat,
        ),
{
    let n = field.size();
    let ghost s0 = field@;
    proof {
        assert(1 <= n * n <= 0xFFFF_FFFFusize) by (nonlinear_arith)
            requires
                1 <= n <= 65535,
        ;
    }
    let len: usize = n * n;
    let mut it: u32 = 0;
    while it < params.iterations
        invariant
            it <= params.iterations,
            field.wf(),
            n == field.spec_size(),
            1 <= n <= MAX_SIZE,
            len == n * n,
            params.wf(),
            s0.len() == len,
            field@ == blur_iter_spec(s0, n as int, *params, it as nat),
        decreases params.iterations - it,
    {
        let src = field.get_data();
        let mut out: Vec<i64> = Vec::new();
        let mut k: usize = 0;
        while k < len
            invariant
                k <= len,
                len == n * n,
                1 <= n <= MAX_SIZE,
                params.wf(),
                valid_grid(src@, n as int),
                out@.len() == k,
                forall|q: int|
                    0 <= q < k ==> #[trigger] out@[q] == blur_cell_spec(
                        src@,
                        n as int,
                        q % (n as int),
                        q / (n as int),
                        *params,
                    ) && fx_valid(out@[q]),
            decreases len - k,
        {
            let x: usize = k % n;
            let y: usize = k / n;
            proof {
                vstd::arithmetic::div_mod::lemma_fundamental_div_mod(k as int, n as int);
                assert((k as int) / (n as int) < n) by (nonlinear_arith)
                    requires
                        (k as int) < (n as int) * (n as int),
                        0 < n as int,
                        (n as int) * ((k as int) / (n as int)) + (k as int) % (n as int)
                            == k as int,
                        0 <= (k as int) % (n as int) < n as int,
                ;
            }
            let cell = blur_cell(&src, n, x, y, params);
            out.push(cell);
            k = k + 1;
        }
        proof {
            assert(valid_grid(out@, n as int));
            assert(out@ =~= blur_pass_spec(src@, n as int, *params));
        }
        field.replace_cells(out);
        it = it + 1;
    }
}

/// One ridge-sharpened cell: the classic unsharp mask, subtracting the
/// scaled four-neighbour Laplacian from the cell.
pub open spec fn ridge_cell_spec(s: Seq<i64>, n: int, x: int, y: int, strength: i64) -> i64 {
    let c = at(s, n, x, y);
    let lap = clamp_spec(
        at_clamped(s, n, x - 1, y) + at_clamped(s, n, x + 1, y) + at_clamped(s, n, x, y - 1)
            + at_clamped(s, n, x, y + 1) - 4 * c,
    );
    fx_sub_spec(c, fx_mul_spec(strength, lap))
}

/// The whole grid after ridge sharpening.
pub open spec fn ridge_grid_spec(s: Seq<i64>, n: int, strength: i64) -> Seq<i64> {
    Seq::new(s.len(), |q: int| ridge_cell_spec(s, n, q % n, q / n, strength))
}

/// Sharpen ridges in a single pass: every cell has `strength` times its
/// edge-clamped Laplacian subtracted.
pub fn apply_ridge_sharpen(field: &mut HeightField, strength: i64)
    requires
        old(field).wf(),
        old(field).spec_size() >= 1,
        fx_valid(strength),
    ensures
        final(field).wf(),
        final(field).spec_size() == old(field).spec_size(),
        final(field)@.len() == old(field)@.len(),
        forall|q: int|
            0 <= q < old(field)@.len() ==> #[trigger] final(field)@[q] == ridge_cell_spec(
                old(field)@,
                old(field).spec_size(),
                q % old(field).spec_size(),
                q / old(field).spec_size(),
                strength,
            ),
        final(field)@ == ridge_grid_spec(old(field)@, old(field).spec_size(), strength),
{
    let n = field.size();
    let src = field.get_data();
    proof {
        assert(1 <= n * n <= 0xFFFF_FFFFusize) by (nonlinear_arith)
            requires
                1 <= n <= 65535,
        ;
    }
    let len: usize = n * n;
    let mut out: Vec<i64> = Vec::new();
    let mut k: usize = 0;
    while k < len
        invariant
            k <= len,
            len == n * n,
            1 <= n <= MAX_SIZE,
            valid_grid(src@, n as int),
            fx_valid(strength),
            out@.len() == k,
            forall|q: int|
                0 <= q < k ==> #[trigger] out@[q] == ridge_cell_spec(
                    src@,
                    n as int,
                    q % (n as int),
                    q / (n as int),
                    strength,
                ) && fx_valid(out@[q]),
        decreases len - k,
    {
        let x: usize = k % n;
        let y: usize = k / n;
        proof {
            vstd::arithmetic::div_mod::lemma_fundamental_div_mod(k as int, n as int);
            assert((k as int) / (n as int) < n) by (nonlinear_arith)
                requires
                    (k as int) < (n as int) * (n as int),
                    0 < n as int,
                    (n as int) * ((k as int) / (n as int)) + (k as int) % (n as int) == k as int,
                    0 <= (k as int) % (n as int) < n as int,
            ;
        }
        let c = src[k];
        proof {
            assert((y as int) * (n as int) + (x as int) == k as int) by (nonlinear_arith)
                requires
                    (n as int) * ((k as int) / (n as int)) + (k as int) % (n as int) == k as int,
                    y as int == (k as int) / (n as int),
                    x as int == (k as int) % (n as int),
            ;
            assert(c == at(src@, n as int, x as int, y as int));
        }
        let le = grid_get_clamped(&src, n, (x as i64) - 1, y as i64);
        let ri = grid_get_clamped(&src, n, (x as i64) + 1, y as i64);
        let up = grid_get_clamped(&src, n, x as i64, (y as i64) - 1);
        let dn = grid_get_clamped(&src, n, x as i64, (y as i64) + 1);
        let lap = clamp_i128(
            (le as i128) + (ri as i128) + (up as i128) + (dn as i128) - 4 * (c as i128),
        );
        let cell = fx_sub(c, fx_mul(strength, lap));
        out.push(cell);
        k = k + 1;
    }
    proof {
        assert(valid_grid(out@, n as int));
        assert(out@ =~= ridge_grid_spec(src@, n as int, strength));
    }
    field.replace_cells(out);
}

/// One cell after the dune overlay: an additive sinusoidal ripple whose
/// phase is the projection of the cell onto the dune direction.
pub open spec fn dune_cell_spec(s: Seq<i64>, n: int, x: int, y: int, p: DuneParams) -> i64 {
    let proj = clamp_spec(x * p.dir_x + y * p.dir_y);
    let u = clamp_spec(div_trunc(proj as int, n));
    let phase = fx_mul_spec(u, p.scale);
    let w = fx_mul_spec(sin_wave_spec(phase), p.amplitude);
    fx_add_spec(at(s, n, x, y), w)
}

/// The whole grid after the dune overlay.
pub open spec fn dune_grid_spec(s: Seq<i64>, n: int, p: DuneParams) -> Seq<i64> {
    Seq::new(s.len(), |q: int| dune_cell_spec(s, n, q % n, q / n, p))
}

/// Overlay dune ripples aligned to the parameter direction.
pub fn apply_dunes(field: &mut HeightField, params: &DuneParams)
    requires
        old(field).wf(),
        old(field).spec_size() >= 1,
        params.wf(),
    ensures
        final(field).wf(),
        final(field).spec_size() == old(field).spec_size(),
        final(field)@.len() == old(field)@.len(),
        forall|q: int|
            0 <= q < old(field)@.len() ==> #[trigger] final(field)@[q] == dune_cell_spec(
                old(field)@,
                old(field).spec_size(),
                q % old(field).spec_size(),
                q / old(field).spec_size(),
                *params,
            ),
        final(field)@ == dune_grid_spec(old(field)@, old(field).spec_size(), *params),
{
    let n = field.size();
    let src = field.get_data();
    proof {
        assert(1 <= n * n <= 0xFFFF_FFFFusize) by (nonlinear_arith)
            requires
                1 <= n <= 65535,
        ;
    }
    let len: usize = n * n;
    let mut out: Vec<i64> = Vec::new();
    let mut k: usize = 0;
    while k < len
        invariant
            k <= len,
            len == n * n,
            1 <= n <= MAX_SIZE,
            valid_grid(src@, n as int),
            params.wf(),
            out@.len() == k,
            forall|q: int|
                0 <= q < k ==> #[trigger] out@[q] == dune_cell_spec(
                    src@,
                    n as int,
                    q % (n as int),
                    q / (n as int),
                    *params,
                ) && fx_valid(out@[q]),
        decreases len - k,
    {
        let x: usize = k % n;
        let y: usize = k / n;
        proof {
            vstd::arithmetic::div_mod::lemma_fundamental_div_mod(k as int, n as int);
            assert((k as int) / (n as int) < n) by (nonlinear_arith)
                requires
                    (k as int) < (n as int) * (n as int),
                    0 < n as int,
                    (n as int) * ((k as int) / (n as int)) + (k as int) % (n as int) == k as int,
                    0 <= (k as int) % (n as int) < n as int,
            ;
            assert((y as int) * (n as int) + (x as int) == k as int) by (nonlinear_arith)
                requires
                    (n as int) * ((k as int) / (n as int)) + (k as int) % (n as int) == k as int,
                    y as int == (k as int) / (n as int),
                    x as int == (k as int) % (n as int),
            ;
            assert(iabs((x as int) * (params.dir_x as int)) <= 65535 * 0x100000 && iabs(
                (y as int) * (params.dir_y as int)) <= 65535 * 0x100000) by (nonlinear_arith)
                requires
                    0 <= x as int <= 65535,
                    0 <= y as int <= 65535,
                    iabs(params.dir_x as int) <= 0x100000,
                    iabs(params.dir_y as int) <= 0x100000,
            ;
        }
        let proj = clamp_i128(
            (x as i128) * (params.dir_x as i128) + (y as i128) * (params.dir_y as i128),
        );
        let u = crate::fixed::sdiv(proj, n as i64);
        let phase = fx_mul(u, params.scale);
        let w = fx_mul(sin_wave(phase), params.amplitude);
        let cell = fx_add(src[k], w);
        out.push(cell);
        k = k + 1;
    }
    proof {
        assert(valid_grid(out@, n as int));
        assert(out@ =~= dune_grid_spec(src@, n as int, *params));
    }
    field.replace_cells(out);
}

/// Sum of the clamped 3x3 neighbourhood of a cell.
pub open spec fn sum9_spec(s: Seq<i64>, n: int, x: int, y: int) -> int {
    at_clamped(s, n, x - 1, y - 1) + at_clamped(s, n, x, y - 1) + at_clamped(s, n, x + 1, y - 1)
        + at_clamped(s, n, x - 1, y) + at_clamped(s, n, x, y) + at_clamped(s, n, x + 1, y)
        + at_clamped(s, n, x - 1, y + 1) + at_clamped(s, n, x, y + 1) + at_clamped(
        s,
        n,
        x + 1,
        y + 1,
    )
}

/// One smoothed cell: moved toward its 3x3 average by `strength`.
pub open spec fn smooth_cell_spec(s: Seq<i64>, n: int, x: int, y: int, strength: i64) -> i64 {
    let c = at(s, n, x, y);
    let avg = clamp_spec(div_trunc(sum9_spec(s, n, x, y), 9));
    fx_add_spec(c, fx_mul_spec(fx_sub_spec(avg, c), strength))
}

/// The whole grid after one smoothing pass.
pub open spec fn smooth_pass_spec(s: Seq<i64>, n: int, strength: i64) -> Seq<i64> {
    Seq::new(s.len(), |q: int| smooth_cell_spec(s, n, q % n, q / n, strength))
}

/// The grid after `it` smoothing passes.
pub open spec fn smooth_iter_spec(s: Seq<i64>, n: int, strength: i64, it: nat) -> Seq<i64>
    decreases it,
{
    if it == 0 {
        s
    } else {
        smooth_pass_spec(smooth_iter_spec(s, n, strength, (it - 1) as nat), n, strength)
    }
}

/// Pull every cell toward its 3x3 box average, `iterations` times,
/// double-buffered per pass.
pub fn apply_smoothing(field: &mut HeightField, iterations: u32, strength: i64)
    requires
        old(field).wf(),
        old(field).spec_size() >= 1,
        fx_valid(strength),
    ensures
        final(field).wf(),
        final(field).spec_size() == old(field).spec_size(),
        final(field)@ == smooth_iter_spec(
            old(field)@,
            old(field).spec_size(),
            strength,
            iterations as nat,
        ),
{
    let n = field.size();
    let ghost s0 = field@;
    proof {
        assert(1 <= n * n <= 0xFFFF_FFFFusize) by (nonlinear_arith)
            requires
                1 <= n <= 65535,
        ;
    }
    let len: usize = n * n;
    let mut it: u32 = 0;
    while it < iterations
        invariant
            it <= iterations,
            field.wf(),
            n == field.spec_size(),
            1 <= n <= MAX_SIZE,
            len == n * n,
            fx_valid(strength),
            s0.len() == len,
            field@ == smooth_iter_spec(s0, n as int, strength, it as nat),
        decreases iterations - it,
    {
        let src = field.get_data();
        let mut out: Vec<i64> = Vec::new();
        let mut k: usize = 0;
        while k < len
            invariant
                k <= len,
                len == n * n,
                1 <= n <= MAX_SIZE,
                fx_valid(strength),
                valid_grid(src@, n as int),
                out@.len() == k,
                forall|q: int|
                    0 <= q < k ==> #[trigger] out@[q] == smooth_cell_spec(
                        src@,
                        n as int,
                        q % (n as int),
                        q / (n as int),
                        strength,
                    ) && fx_valid(out@[q]),
            decreases len - k,
        {
            let x: usize = k % n;
            let y: usize = k / n;
            proof {
                vstd::arithmetic::div_mod::lemma_fundamental_div_mod(k as int, n as int);
                assert((k as int) / (n as int) < n) by (nonlinear_arith)
                    requires
                        (k as int) < (n as int) * (n as int),
                        0 < n as int,
                        (n as int) * ((k as int) / (n as int)) + (k as int) % (n as int)
                            == k as int,
                        0 <= (k as int) % (n as int) < n as int,
                ;
            }
            let xi = x as i64;
            let yi = y as i64;
            let sum: i128 = (grid_get_clamped(&src, n, xi - 1, yi - 1) as i128) + (grid_get_clamped(
                &src,
                n,
                xi,
                yi - 1,
            ) as i128) + (grid_get_clamped(&src, n, xi + 1, yi - 1) as i128) + (grid_get_clamped(
                &src,
                n,
                xi - 1,
                yi,
            ) as i128) + (grid_get_clamped(&src, n, xi, yi) as i128) + (grid_get_clamped(
                &src,
                n,
                xi + 1,
                yi,
            ) as i128) + (grid_get_clamped(&src, n, xi - 1, yi + 1) as i128) + (grid_get_clamped(
                &src,
                n,
                xi,
                yi + 1,
            ) as i128) + (grid_get_clamped(&src, n, xi + 1, yi + 1) as i128);
            let avg = clamp_i128(div_trunc_i128(sum, 9));
            let c = src[k];
            proof {
                assert((y as int) * (n as int) + (x as int) == k as int) by (nonlinear_arith)
                    requires
                        (n as int) * ((k as int) / (n as int)) + (k as int) % (n as int)
                            == k as int,
                        y as int == (k as int) / (n as int),
                        x as int == (k as int) % (n as int),
                ;
                assert(c == at(src@, n as int, x as int, y as int));
                assert(at_clamped(src@, n as int, x as int, y as int) == c);
            }
            let cell = fx_add(c, fx_mul(fx_sub(avg, c), strength));
            out.push(cell);
            k = k + 1;
        }
        proof {
            assert(valid_grid(out@, n as int));
            assert(out@ =~= smooth_pass_spec(src@, n as int, strength));
        }
        field.replace_cells(out);
        it = it + 1;
    }
}

/// Offset of the `d`-th neighbour in the fixed 3x3 scan order (row-major,
/// centre skipped): the order every relaxation sweep visits neighbours in.
pub open spec fn nb_dx(d: int) -> int {
    if d == 0 {
        -1
    } else if d == 1 {
        0
    } else if d == 2 {
        1
    } else if d == 3 {
        -1
    } else if d == 4 {
        1
    } else if d == 5 {
        -1
    } else if d == 6 {
        0
    } else {
        1
    }
}

pub open spec fn nb_dy(d: int) -> int {
    if d < 3 {
        -1
    } else if d < 5 {
        0
    } else {
        1
    }
}

/// The `d`-th neighbour offset, as executable values.
pub fn nb_offset(d: usize) -> (r: (i64, i64))
    requires
        d < 8,
    ensures
        r.0 as int == nb_dx(d as int),
        r.1 as int == nb_dy(d as int),
        -1 <= r.0 <= 1,
        -1 <= r.1 <= 1,
        !(r.0 == 0 && r.1 == 0),
{
    if d == 0 {
        (-1, -1)
    } else if d == 1 {
        (0, -1)
    } else if d == 2 {
        (1, -1)
    } else if d == 3 {
        (-1, 0)
    } else if d == 4 {
        (1, 0)
    } else if d == 5 {
        (-1, 1)
    } else if d == 6 {
        (0, 1)
    } else {
        (1, 1)
    }
}

/// Scatter buffer after the first `d` neighbour transfers of cell `(x, y)`:
/// for each neighbour lower by more than the talus threshold, a tenth of
/// the excess is computed and half of it moves from the cell to the
/// neighbour. Heights are read from `src`, the pass's starting state.
pub open spec fn th_cell_spec(
    src: Seq<i64>,
    acc: Seq<i64>,
    n: int,
    x: int,
    y: int,
    talus: i64,
    d: nat,
) -> Seq<i64>
    decreases d,
{
    if d == 0 {
        acc
    } else {
        let prev = th_cell_spec(src, acc, n, x, y, talus, (d - 1) as nat);
        let dd = d - 1;
        let h = at(src, n, x, y);
        let hn = at(src, n, x + nb_dx(dd), y + nb_dy(dd));
        if h - hn > talus {
            let amt = fx_mul_spec(fx_mul_spec(clamp_spec(h - hn - talus), TENTH), HALF);
            let i1 = y * n + x;
            let i2 = (y + nb_dy(dd)) * n + (x + nb_dx(dd));
            prev.update(i1, fx_sub_spec(prev[i1], amt)).update(i2, fx_add_spec(prev[i2], amt))
        } else {
            prev
        }
    }
}

/// Scatter buffer after the first `k` interior cells of one pass.
pub open spec fn th_sweep_spec(src: Seq<i64>, acc: Seq<i64>, n: int, talus: i64, k: nat) -> Seq<
    i64,
>
    decreases k,
{
    if k == 0 {
        acc
    } else {
        let prev = th_sweep_spec(src, acc, n, talus, (k - 1) as nat);
        let x = 1 + ((k - 1) as int) % (n - 2);
        let y = 1 + ((k - 1) as int) / (n - 2);
        th_cell_spec(src, prev, n, x, y, talus, 8)
    }
}

/// The grid after one thermal pass: every interior cell sheds material to
/// its too-low neighbours; grids without interior cells are unchanged.
pub open spec fn th_pass_spec(s: Seq<i64>, n: int, talus: i64) -> Seq<i64> {
    if n <= 2 {
        s
    } else {
        th_sweep_spec(s, s, n, talus, ((n - 2) * (n - 2)) as nat)
    }
}

/// The grid after `it` thermal passes, each double-buffered.
pub open spec fn th_iter_spec(s: Seq<i64>, n: int, talus: i64, it: nat) -> Seq<i64>
    decreases it,
{
    if it == 0 {
        s
    } else {
        th_pass_spec(th_iter_spec(s, n, talus, (it - 1) as nat), n, talus)
    }
}

/// Apply one cell's transfers to the scatter buffer.
fn th_cell(src: &Vec<i64>, tmp: &mut Vec<i64>, n: usize, x: usize, y: usize, talus: i64)
    requires
        valid_grid(src@, n as int),
        3 <= n <= MAX_SIZE,
        1 <= x < n - 1,
        1 <= y < n - 1,
        fx_valid(talus),
        old(tmp)@.len() == n * n,
        forall|i: int| 0 <= i < old(tmp)@.len() ==> fx_valid(#[trigger] old(tmp)@[i]),
    ensures
        final(tmp)@ == th_cell_spec(src@, old(tmp)@, n as int, x as int, y as int, talus, 8),
        final(tmp)@.len() == n * n,
        forall|i: int| 0 <= i < final(tmp)@.len() ==> fx_valid(#[trigger] final(tmp)@[i]),
{
    proof {
        assert(n * n <= 0xFFFF_FFFFusize && y * n + x < n * n) by (nonlinear_arith)
            requires
                n <= 65535,
                x < n,
                y < n,
        ;
    }
    let i1: usize = y * n + x;
    let h = src[i1];
    proof {
        assert(h == at(src@, n as int, x as int, y as int));
    }
    let mut d: usize = 0;
    while d < 8
        invariant
            d <= 8,
            valid_grid(src@, n as int),
            3 <= n <= MAX_SIZE,
            1 <= x < n - 1,
            1 <= y < n - 1,
            fx_valid(talus),
            i1 == y * n + x,
            i1 < n * n,
            h == at(src@, n as int, x as int, y as int),
            old(tmp)@.len() == n * n,
            forall|i: int| 0 <= i < old(tmp)@.len() ==> fx_valid(#[trigger] old(tmp)@[i]),
            tmp@ == th_cell_spec(src@, old(tmp)@, n as int, x as int, y as int, talus, d as nat),
            tmp@.len() == n * n,
            forall|i: int| 0 <= i < tmp@.len() ==> fx_valid(#[trigger] tmp@[i]),
        decreases 8 - d,
    {
        let (ddx, ddy) = nb_offset(d);
        let nx: usize = ((x as i64) + ddx) as usize;
        let ny: usize = ((y as i64) + ddy) as usize;
        proof {
            assert(ny * n + nx < n * n && n * n <= 0xFFFF_FFFFusize) by (nonlinear_arith)
                requires
                    nx < n,
                    ny < n,
                    n <= 65535,
            ;
        }
        let i2: usize = ny * n + nx;
        let hn = src[i2];
        proof {
            assert(hn == at(
                src@,
                n as int,
                x as int + nb_dx(d as int),
                y as int + nb_dy(d as int),
            ));
        }
        if (h as i128) - (hn as i128) > (talus as i128) {
            proof {
                assert(i1 as int != i2 as int) by (nonlinear_arith)
                    requires
                        i1 as int == (y as int) * (n as int) + (x as int),
                        i2 as int == (ny as int) * (n as int) + (nx as int),
                        nx as int == (x as int) + (ddx as int),
                        ny as int == (y as int) + (ddy as int),
                        -1 <= ddx as int <= 1,
                        -1 <= ddy as int <= 1,
                        !(ddx as int == 0 && ddy as int == 0),
                        0 <= (x as int) < (n as int),
                        0 <= (nx as int) < (n as int),
                        3 <= n as int,
                ;
            }
            let amt = fx_mul(
                fx_mul(clamp_i128((h as i128) - (hn as i128) - (talus as i128)), TENTH),
                HALF,
            );
            let v1 = tmp[i1];
            let w1 = fx_sub(v1, amt);
            tmp[i1] = w1;
            let v2 = tmp[i2];
            let w2 = fx_add(v2, amt);
            tmp[i2] = w2;
        }
        d = d + 1;
    }
}

/// Talus-bounded thermal relaxation: `iterations` double-buffered passes,
/// each moving half a tenth of every unstable excess from a cell to the
/// neighbour below it.
pub fn apply_thermal_erosion(field: &mut HeightField, iterations: u32, talus: i64)
    requires
        old(field).wf(),
        old(field).spec_size() >= 1,
        fx_valid(talus),
    ensures
        final(field).wf(),
        final(field).spec_size() == old(field).spec_size(),
        final(field)@ == th_iter_spec(
            old(field)@,
            old(field).spec_size(),
            talus,
            iterations as nat,
        ),
{
    let n = field.size();
    let ghost s0 = field@;
    proof {
        assert(1 <= n * n <= 0xFFFF_FFFFusize) by (nonlinear_arith)
            requires
                1 <= n <= 65535,
        ;
    }
    let mut it: u32 = 0;
    while it < iterations
        invariant
            it <= iterations,
            field.wf(),
            n == field.spec_size(),
            1 <= n <= MAX_SIZE,
            fx_valid(talus),
            s0.len() == n * n,
            field@ == th_iter_spec(s0, n as int, talus, it as nat),
        decreases iterations - it,
    {
        if n > 2 {
            let src = field.get_data();
            let mut tmp = field.get_data();
            let inner: usize = n - 2;
            proof {
                assert(inner * inner <= n * n && n * n <= 0xFFFF_FFFFusize) by (nonlinear_arith)
                    requires
                        inner == n - 2,
                        3 <= n <= 65535,
                ;
            }
            let icount: usize = inner * inner;
            let mut k: usize = 0;
            while k < icount
                invariant
                    k <= icount,
                    icount == inner * inner,
                    inner == n - 2,
                    3 <= n <= MAX_SIZE,
                    valid_grid(src@, n as int),
                    fx_valid(talus),
                    tmp@ == th_sweep_spec(src@, src@, n as int, talus, k as nat),
                    tmp@.len() == n * n,
                    forall|i: int| 0 <= i < tmp@.len() ==> fx_valid(#[trigger] tmp@[i]),
                decreases icount - k,
            {
                let x: usize = 1 + k % inner;
                let y: usize = 1 + k / inner;
                proof {
                    vstd::arithmetic::div_mod::lemma_fundamental_div_mod(k as int, inner as int);
                    assert((k as int) / (inner as int) < inner) by (nonlinear_arith)
                        requires
                            (k as int) < (inner as int) * (inner as int),
                            0 < inner as int,
                            (inner as int) * ((k as int) / (inner as int)) + (k as int) % (
                            inner as int) == k as int,
                            0 <= (k as int) % (inner as int) < inner as int,
                    ;
                }
                th_cell(&src, &mut tmp, n, x, y, talus);
                k = k + 1;
            }
            proof {
                assert(valid_grid(tmp@, n as int));
                assert(tmp@ == th_pass_spec(src@, n as int, talus));
            }
            field.replace_cells(tmp);
        } else {
            proof {
                assert(field@ == th_pass_spec(field@, n as int, talus));
            }
        }
        it = it + 1;
    }
}

} // verus!
