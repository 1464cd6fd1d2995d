//! The geological erosion simulator: wind, thermal and hydraulic passes,
//! each bounded by an iteration cap derived from the simulated time span,
//! with hydrology recomputed as the surface changes.

use vstd::prelude::*;

verus! {

use crate::MAX_SIZE;
use crate::filters::nb_dx;
use crate::filters::nb_dy;
use crate::filters::nb_offset;
use crate::fixed::SCALE;
use crate::fixed::clamp_i128;
use crate::fixed::clamp_spec;
use crate::fixed::fx_add;
use crate::fixed::fx_add_spec;
use crate::fixed::fx_mul;
use crate::fixed::fx_mul_spec;
use crate::fixed::fx_sub;
use crate::fixed::fx_sub_spec;
use crate::fixed::fx_valid;
use crate::height_field::HeightField;
use crate::height_field::at;
use crate::height_field::valid_grid;
use crate::water_system::WaterFeatures;
use crate::water_system::WaterSystemParams;
use crate::water_system::apply_water_system;
use crate::water_system::flow_max;
use crate::water_system::water_system_rel;

/// Talus threshold of the thermal process: slopes steeper than this shed
/// material.
pub const TALUS: i64 = 800_000;

/// Ten simulated years: below this the simulator skips every erosion
/// process and only evaluates baseline hydrology.
pub const FAST_PATH_YEARS: i64 = 10_000_000;

/// Parameters of a geological erosion run. All scalars are fixed-point;
/// `time_years` counts simulated years in scalar units.
#[derive(Clone, Copy, PartialEq, Eq, Structural)]
pub struct ErosionParams {
    pub time_years: i64,
    pub sea_level: i64,
    pub wind_strength: i64,
    pub rain_intensity: i64,
    pub temperature_cycles: i64,
}

impl ErosionParams {
    pub open spec fn wf(&self) -> bool {
        &&& fx_valid(self.time_years)
        &&& fx_valid(self.sea_level)
        &&& fx_valid(self.wind_strength)
        &&& fx_valid(self.rain_intensity)
        &&& fx_valid(self.temperature_cycles)
    }

    pub fn new(
        time_years: i64,
        sea_level: i64,
        wind_strength: i64,
        rain_intensity: i64,
        temperature_cycles: i64,
    ) -> (r: ErosionParams)
        requires
            fx_valid(time_years),
            fx_valid(sea_level),
            fx_valid(wind_strength),
            fx_valid(rain_intensity),
            fx_valid(temperature_cycles),
        ensures
            r == (ErosionParams {
                time_years,
                sea_level,
                wind_strength,
                rain_intensity,
                temperature_cycles,
            }),
            r.wf(),
    {
        ErosionParams { time_years, sea_level, wind_strength, rain_intensity, temperature_cycles }
    }
}

/// Greatest of the first `d` neighbour heights in scan order (interior
/// cells only, so neighbours are read directly; `d >= 1`).
pub open spec fn nb_max(s: Seq<i64>, n: int, x: int, y: int, d: nat) -> i64
    decreases d,
{
    let hn = at(s, n, x + nb_dx((d - 1) as int), y + nb_dy((d - 1) as int));
    if d <= 1 {
        hn
    } else {
        let m = nb_max(s, n, x, y, (d - 1) as nat);
        if hn > m {
            hn
        } else {
            m
        }
    }
}

/// One wind step at an interior cell: its exposure is how far it protrudes
/// above its highest neighbour (plus a small constant), and the cell loses
/// the wind strength times the exposure, scaled by one hundredth.
pub open spec fn wind_cell_step(s: Seq<i64>, n: int, x: int, y: int, ws: i64) -> Seq<i64> {
    let mn = nb_max(s, n, x, y, 8);
    let h = at(s, n, x, y);
    let v = h - mn + 100_000;
    let expo: i64 = if v < 0 {
        0i64
    } else {
        clamp_spec(v)
    };
    let e = fx_mul_spec(fx_mul_spec(ws, expo), 10_000);
    if e > 0 {
        s.update(y * n + x, fx_sub_spec(h, e))
    } else {
        s
    }
}

/// The grid after the first `k` interior cells of one wind pass. The pass
/// runs in place: later cells see earlier cells already eroded.
pub open spec fn wind_sweep(s: Seq<i64>, n: int, ws: i64, k: nat) -> Seq<i64>
    decreases k,
{
    if k == 0 {
        s
    } else {
        let prev = wind_sweep(s, n, ws, (k - 1) as nat);
        wind_cell_step(prev, n, 1 + ((k - 1) as int) % (n - 2), 1 + ((k - 1) as int) / (n - 2), ws)
    }
}

/// The grid after one full wind pass.
pub open spec fn wind_pass(s: Seq<i64>, n: int, ws: i64) -> Seq<i64> {
    if n <= 2 {
        s
    } else {
        wind_sweep(s, n, ws, ((n - 2) * (n - 2)) as nat)
    }
}

/// The grid after `it` wind passes.
pub open spec fn wind_iter(s: Seq<i64>, n: int, ws: i64, it: nat) -> Seq<i64>
    decreases it,
{
    if it == 0 {
        s
    } else {
        wind_pass(wind_iter(s, n, ws, (it - 1) as nat), n, ws)
    }
}

/// Wind erosion: `iterations` in-place sweeps over the interior, each cell
/// losing material in proportion to its exposure above its neighbours.
pub fn apply_wind_erosion(field: &mut HeightField, params: &ErosionParams, iterations: u32)
    requires
        old(field).wf(),
        params.wf(),
    ensures
        final(field).wf(),
        final(field).spec_size() == old(field).spec_size(),
        final(field)@ == wind_iter(
            old(field)@,
            old(field).spec_size(),
            params.wind_strength,
            iterations as nat,
        ),
{
    let n = field.size();
    let ghost s0 = field@;
    let mut it: u32 = 0;
    while it < iterations
        invariant
            it <= iterations,
            field.wf(),
            n == field.spec_size(),
            0 <= n <= MAX_SIZE,
            params.wf(),
            field@ == wind_iter(s0, n as int, params.wind_strength, it as nat),
        decreases iterations - it,
    {
        if n > 2 {
            let ghost pass0 = field@;
            let mut tmp = field.get_data();
            let inner: usize = n - 2;
            proof {
                assert(inner * inner <= n * n && n * n <= 0xFFFF_FFFFusize) by (nonlinear_arith)
                    requires
                        inner == n - 2,
                        3 <= n <= 65535,
                ;
            }
            let icount: usize = inner * inner;
            let mut k: usize = 0;
            while k < icount
                invariant
                    k <= icount,
                    icount == inner * inner,
                    inner == n - 2,
                    3 <= n <= MAX_SIZE,
                    params.wf(),
                    pass0.len() == n * n,
                    valid_grid(pass0, n as int),
                    tmp@ == wind_sweep(pass0, n as int, params.wind_strength, k as nat),
                    tmp@.len() == n * n,
                    forall|i: int| 0 <= i < tmp@.len() ==> fx_valid(#[trigger] tmp@[i]),
                decreases icount - k,
            {
                let x: usize = 1 + k % inner;
                let y: usize = 1 + k / inner;
                proof {
                    vstd::arithmetic::div_mod::lemma_fundamental_div_mod(k as int, inner as int);
                    assert((k as int) / (inner as int) < inner) by (nonlinear_arith)
                        requires
                            (k as int) < (inner as int) * (inner as int),
                            0 < inner as int,
                            (inner as int) * ((k as int) / (inner as int)) + (k as int) % (
                            inner as int) == k as int,
                            0 <= (k as int) % (inner as int) < inner as int,
                    ;
                }
                wind_cell(&mut tmp, n, x, y, params.wind_strength);
                k = k + 1;
            }
            proof {
                assert(valid_grid(tmp@, n as int));
                assert(tmp@ == wind_pass(pass0, n as int, params.wind_strength));
            }
            field.replace_cells(tmp);
        } else {
            proof {
                assert(field@ == wind_pass(field@, n as int, params.wind_strength));
            }
        }
        it = it + 1;
    }
}

/// Apply one wind step in place.
fn wind_cell(tmp: &mut Vec<i64>, n: usize, x: usize, y: usize, ws: i64)
    requires
        3 <= n <= MAX_SIZE,
        1 <= x < n - 1,
        1 <= y < n - 1,
        old(tmp)@.len() == n * n,
        forall|i: int| 0 <= i < old(tmp)@.len() ==> fx_valid(#[trigger] old(tmp)@[i]),
        fx_valid(ws),
    ensures
        final(tmp)@ == wind_cell_step(old(tmp)@, n as int, x as int, y as int, ws),
        final(tmp)@.len() == n * n,
        forall|i: int| 0 <= i < final(tmp)@.len() ==> fx_valid(#[trigger] final(tmp)@[i]),
{
    proof {
        assert(y * n + x < n * n && n * n <= 0xFFFF_FFFFusize) by (nonlinear_arith)
            requires
                x < n,
                y < n,
                n <= 65535,
        ;
    }
    let idx: usize = y * n + x;
    let h = tmp[idx];
    proof {
        assert(h == at(old(tmp)@, n as int, x as int, y as int));
    }
    proof {
        assert((y - 1) * n + (x - 1) < n * n) by (nonlinear_arith)
            requires
                1 <= x < n,
                1 <= y < n,
        ;
    }
    let mut mn: i64 = tmp[(y - 1) * n + (x - 1)];
    proof {
        assert(mn == at(tmp@, n as int, x as int + nb_dx(0), y as int + nb_dy(0)));
        assert(mn == nb_max(tmp@, n as int, x as int, y as int, 1));
    }
    let mut d: usize = 1;
    while d < 8
        invariant
            1 <= d <= 8,
            3 <= n <= MAX_SIZE,
            1 <= x < n - 1,
            1 <= y < n - 1,
            tmp@ == old(tmp)@,
            tmp@.len() == n * n,
            forall|i: int| 0 <= i < tmp@.len() ==> fx_valid(#[trigger] tmp@[i]),
            mn == nb_max(tmp@, n as int, x as int, y as int, d as nat),
            fx_valid(mn),
        decreases 8 - d,
    {
        let (ddx, ddy) = nb_offset(d);
        let nx: usize = ((x as i64) + ddx) as usize;
        let ny: usize = ((y as i64) + ddy) as usize;
        proof {
            assert(ny * n + nx < n * n && n * n <= 0xFFFF_FFFFusize) by (nonlinear_arith)
                requires
                    nx < n,
                    ny < n,
                    n <= 65535,
            ;
        }
        let hn = tmp[ny * n + nx];
        proof {
            assert(hn == at(tmp@, n as int, x as int + nb_dx(d as int), y as int + nb_dy(
                d as int,
            )));
        }
        if hn > mn {
            mn = hn;
        }
        d = d + 1;
    }
    let v: i128 = (h as i128) - (mn as i128) + 100_000;
    let expo: i64 = if v < 0 {
        0
    } else {
        clamp_i128(v)
    };
    let e = fx_mul(fx_mul(ws, expo), 10_000);
    if e > 0 {
        let nv = fx_sub(h, e);
        tmp[idx] = nv;
    }
}

/// One thermal transfer amount: the excess slope over the talus threshold,
/// scaled by the cycle count and a thousandth, halved.
pub open spec fn eth_amount(h: i64, hn: i64, cycles: i64) -> i64 {
    fx_mul_spec(fx_mul_spec(fx_mul_spec(clamp_spec(h - hn - TALUS), cycles), 1_000), 500_000)
}

/// Scatter buffer after the first `d` neighbour transfers of interior cell
/// `(x, y)`; heights come from `src`, the pass's starting state.
pub open spec fn eth_cell_spec(
    src: Seq<i64>,
    acc: Seq<i64>,
    n: int,
    x: int,
    y: int,
    cycles: i64,
    d: nat,
) -> Seq<i64>
    decreases d,
{
    if d == 0 {
        acc
    } else {
        let prev = eth_cell_spec(src, acc, n, x, y, cycles, (d - 1) as nat);
        let dd = (d - 1) as int;
        let h = at(src, n, x, y);
        let hn = at(src, n, x + nb_dx(dd), y + nb_dy(dd));
        if h - hn > TALUS {
            let amt = eth_amount(h, hn, cycles);
            let i1 = y * n + x;
            let i2 = (y + nb_dy(dd)) * n + (x + nb_dx(dd));
            prev.update(i1, fx_sub_spec(prev[i1], amt)).update(i2, fx_add_spec(prev[i2], amt))
        } else {
            prev
        }
    }
}

/// Scatter buffer after the first `k` interior cells of one thermal pass.
pub open spec fn eth_sweep(src: Seq<i64>, acc: Seq<i64>, n: int, cycles: i64, k: nat) -> Seq<i64>
    decreases k,
{
    if k == 0 {
        acc
    } else {
        let prev = eth_sweep(src, acc, n, cycles, (k - 1) as nat);
        let x = 1 + ((k - 1) as int) % (n - 2);
        let y = 1 + ((k - 1) as int) / (n - 2);
        eth_cell_spec(src, prev, n, x, y, cycles, 8)
    }
}

/// The grid after one double-buffered thermal pass.
pub open spec fn eth_pass(s: Seq<i64>, n: int, cycles: i64) -> Seq<i64> {
    if n <= 2 {
        s
    } else {
        eth_sweep(s, s, n, cycles, ((n - 2) * (n - 2)) as nat)
    }
}

/// The grid after `it` thermal passes.
pub open spec fn eth_iter(s: Seq<i64>, n: int, cycles: i64, it: nat) -> Seq<i64>
    decreases it,
{
    if it == 0 {
        s
    } else {
        eth_pass(eth_iter(s, n, cycles, (it - 1) as nat), n, cycles)
    }
}

/// Apply one thermal cell's transfers to the scatter buffer.
fn eth_cell(src: &Vec<i64>, tmp: &mut Vec<i64>, n: usize, x: usize, y: usize, cycles: i64)
    requires
        valid_grid(src@, n as int),
        3 <= n <= MAX_SIZE,
        1 <= x < n - 1,
        1 <= y < n - 1,
        fx_valid(cycles),
        old(tmp)@.len() == n * n,
        forall|i: int| 0 <= i < old(tmp)@.len() ==> fx_valid(#[trigger] old(tmp)@[i]),
    ensures
        final(tmp)@ == eth_cell_spec(src@, old(tmp)@, n as int, x as int, y as int, cycles, 8),
        final(tmp)@.len() == n * n,
        forall|i: int| 0 <= i < final(tmp)@.len() ==> fx_valid(#[trigger] final(tmp)@[i]),
{
    proof {
        assert(n * n <= 0xFFFF_FFFFusize && y * n + x < n * n) by (nonlinear_arith)
            requires
                n <= 65535,
                x < n,
                y < n,
        ;
    }
    let i1: usize = y * n + x;
    let h = src[i1];
    proof {
        assert(h == at(src@, n as int, x as int, y as int));
    }
    let mut d: usize = 0;
    while d < 8
        invariant
            d <= 8,
            valid_grid(src@, n as int),
            3 <= n <= MAX_SIZE,
            1 <= x < n - 1,
            1 <= y < n - 1,
            fx_valid(cycles),
            i1 == y * n + x,
            i1 < n * n,
            h == at(src@, n as int, x as int, y as int),
            old(tmp)@.len() == n * n,
            tmp@ == eth_cell_spec(src@, old(tmp)@, n as int, x as int, y as int, cycles, d as nat),
            tmp@.len() == n * n,
            forall|i: int| 0 <= i < tmp@.len() ==> fx_valid(#[trigger] tmp@[i]),
        decreases 8 - d,
    {
        let (ddx, ddy) = nb_offset(d);
        let nx: usize = ((x as i64) + ddx) as usize;
        let ny: usize = ((y as i64) + ddy) as usize;
        proof {
            assert(ny * n + nx < n * n && n * n <= 0xFFFF_FFFFusize) by (nonlinear_arith)
                requires
                    nx < n,
                    ny < n,
                    n <= 65535,
            ;
        }
        let i2: usize = ny * n + nx;
        let hn = src[i2];
        proof {
            assert(hn == at(
                src@,
                n as int,
                x as int + nb_dx(d as int),
                y as int + nb_dy(d as int),
            ));
        }
        if (h as i128) - (hn as i128) > (TALUS as i128) {
            proof {
                assert(i1 as int != i2 as int) by (nonlinear_arith)
                    requires
                        i1 as int == (y as int) * (n as int) + (x as int),
                        i2 as int == (ny as int) * (n as int) + (nx as int),
                        nx as int == (x as int) + (ddx as int),
                        ny as int == (y as int) + (ddy as int),
                        -1 <= ddx as int <= 1,
                        -1 <= ddy as int <= 1,
                        !(ddx as int == 0 && ddy as int == 0),
                        0 <= (x as int) < (n as int),
                        0 <= (nx as int) < (n as int),
                        3 <= n as int,
                ;
            }
            let amt = fx_mul(
                fx_mul(fx_mul(clamp_i128((h as i128) - (hn as i128) - (TALUS as i128)), cycles), 1_000),
                500_000,
            );
            let v1 = tmp[i1];
            let w1 = fx_sub(v1, amt);
            tmp[i1] = w1;
            let v2 = tmp[i2];
            let w2 = fx_add(v2, amt);
            tmp[i2] = w2;
        }
        d = d + 1;
    }
}

/// Thermal erosion: `iterations` double-buffered passes, each moving half
/// of every over-talus excess (scaled by the cycle count and a thousandth)
/// from a cell to the neighbour below it.
pub fn apply_thermal_erosion(field: &mut HeightField, params: &ErosionParams, iterations: u32)
    requires
        old(field).wf(),
        params.wf(),
    ensures
        final(field).wf(),
        final(field).spec_size() == old(field).spec_size(),
        final(field)@ == eth_iter(
            old(field)@,
            old(field).spec_size(),
            params.temperature_cycles,
            iterations as nat,
        ),
{
    let n = field.size();
    let ghost s0 = field@;
    let mut it: u32 = 0;
    while it < iterations
        invariant
            it <= iterations,
            field.wf(),
            n == field.spec_size(),
            0 <= n <= MAX_SIZE,
            params.wf(),
            field@ == eth_iter(s0, n as int, params.temperature_cycles, it as nat),
        decreases iterations - it,
    {
        if n > 2 {
            let src = field.get_data();
            let mut tmp = field.get_data();
            let inner: usize = n - 2;
            proof {
                assert(inner * inner <= n * n && n * n <= 0xFFFF_FFFFusize) by (nonlinear_arith)
                    requires
                        inner == n - 2,
                        3 <= n <= 65535,
                ;
            }
            let icount: usize = inner * inner;
            let mut k: usize = 0;
            while k < icount
                invariant
                    k <= icount,
                    icount == inner * inner,
                    inner == n - 2,
                    3 <= n <= MAX_SIZE,
                    params.wf(),
                    valid_grid(src@, n as int),
                    tmp@ == eth_sweep(src@, src@, n as int, params.temperature_cycles, k as nat),
                    tmp@.len() == n * n,
                    forall|i: int| 0 <= i < tmp@.len() ==> fx_valid(#[trigger] tmp@[i]),
                decreases icount - k,
            {
                let x: usize = 1 + k % inner;
                let y: usize = 1 + k / inner;
                proof {
                    vstd::arithmetic::div_mod::lemma_fundamental_div_mod(k as int, inner as int);
                    assert((k as int) / (inner as int) < inner) by (nonlinear_arith)
                        requires
                            (k as int) < (inner as int) * (inner as int),
                            0 < inner as int,
                            (inner as int) * ((k as int) / (inner as int)) + (k as int) % (
                            inner as int) == k as int,
                            0 <= (k as int) % (inner as int) < inner as int,
                    ;
                }
                eth_cell(&src, &mut tmp, n, x, y, params.temperature_cycles);
                k = k + 1;
            }
            proof {
                assert(valid_grid(tmp@, n as int));
                assert(tmp@ == eth_pass(src@, n as int, params.temperature_cycles));
            }
            field.replace_cells(tmp);
        } else {
            proof {
                assert(field@ == eth_pass(field@, n as int, params.temperature_cycles));
            }
        }
        it = it + 1;
    }
}

/// Steepest-descent scan by plain height difference over the first `d`
/// neighbours in scan order: the best positive drop and its grid index
/// (-1 when none). Interior cells only.
pub open spec fn hyd_best(s: Seq<i64>, n: int, x: int, y: int, d: nat) -> (int, int)
    decreases d,
{
    if d == 0 {
        (0, -1)
    } else {
        let prev = hyd_best(s, n, x, y, (d - 1) as nat);
        let dd = (d - 1) as int;
        let diff = at(s, n, x, y) - at(s, n, x + nb_dx(dd), y + nb_dy(dd));
        if diff > prev.0 {
            (diff, (y + nb_dy(dd)) * n + (x + nb_dx(dd)))
        } else {
            prev
        }
    }
}

/// One hydraulic step at an interior cell: erosion proportional to
/// normalized flow times local relief times rain, plus a river term;
/// the removed material is taken from the cell and thirty percent of it is
/// dropped one hop downstream onto the steepest lower neighbour.
pub open spec fn hyd_cell(
    s: Seq<i64>,
    flow: Seq<u64>,
    maxf: int,
    river: Seq<i64>,
    rain: i64,
    n: int,
    x: int,
    y: int,
) -> Seq<i64> {
    let idx = y * n + x;
    let avg = clamp_spec(crate::water_system::nb_abs_sum(s, n, x, y, 8) / 8);
    let fnorm = clamp_spec((flow[idx] as int) * SCALE / maxf);
    let he = fx_mul_spec(fx_mul_spec(fx_mul_spec(fnorm, avg), rain), 20_000);
    let re = fx_mul_spec(fx_mul_spec(fx_mul_spec(river[idx], avg), rain), 50_000);
    let tot = fx_add_spec(he, re);
    if tot > 0 {
        let s1 = s.update(idx, fx_sub_spec(s[idx], tot));
        let best = hyd_best(s1, n, x, y, 8);
        if best.1 >= 0 {
            let dep = fx_mul_spec(tot, 300_000);
            s1.update(best.1, fx_add_spec(s1[best.1], dep))
        } else {
            s1
        }
    } else {
        s
    }
}

/// The grid after the first `k` interior cells of one hydraulic pass (run
/// in place, so later cells see earlier changes).
pub open spec fn hyd_sweep(
    s: Seq<i64>,
    flow: Seq<u64>,
    maxf: int,
    river: Seq<i64>,
    rain: i64,
    n: int,
    k: nat,
) -> Seq<i64>
    decreases k,
{
    if k == 0 {
        s
    } else {
        let prev = hyd_sweep(s, flow, maxf, river, rain, n, (k - 1) as nat);
        hyd_cell(
            prev,
            flow,
            maxf,
            river,
            rain,
            n,
            1 + ((k - 1) as int) % (n - 2),
            1 + ((k - 1) as int) / (n - 2),
        )
    }
}

/// The grid after one hydraulic pass.
pub open spec fn hyd_pass(
    s: Seq<i64>,
    flow: Seq<u64>,
    maxf: int,
    river: Seq<i64>,
    rain: i64,
    n: int,
) -> Seq<i64> {
    if n <= 2 {
        s
    } else {
        hyd_sweep(s, flow, maxf, river, rain, n, ((n - 2) * (n - 2)) as nat)
    }
}

/// The grid after `it` hydraulic passes.
pub open spec fn hyd_iter(
    s: Seq<i64>,
    flow: Seq<u64>,
    maxf: int,
    river: Seq<i64>,
    rain: i64,
    n: int,
    it: nat,
) -> Seq<i64>
    decreases it,
{
    if it == 0 {
        s
    } else {
        hyd_pass(hyd_iter(s, flow, maxf, river, rain, n, (it - 1) as nat), flow, maxf, river, rain, n)
    }
}

/// With no rain, a hydraulic step erodes nothing.
proof fn lemma_hyd_cell_rain_zero(
    s: Seq<i64>,
    flow: Seq<u64>,
    maxf: int,
    river: Seq<i64>,
    n: int,
    x: int,
    y: int,
)
    ensures
        hyd_cell(s, flow, maxf, river, 0i64, n, x, y) == s,
{
    let idx = y * n + x;
    let avg = clamp_spec(crate::water_system::nb_abs_sum(s, n, x, y, 8) / 8);
    let fnorm = clamp_spec((flow[idx] as int) * SCALE / maxf);
    let p1 = fx_mul_spec(fnorm, avg);
    assert(fx_mul_spec(p1, 0i64) == 0i64) by {
        assert((p1 as int) * 0 == 0) by (nonlinear_arith);
        vstd::arithmetic::div_mod::lemma_div_of0(SCALE as int);
    }
    assert(fx_mul_spec(0i64, 20_000) == 0i64) by {
        vstd::arithmetic::div_mod::lemma_div_of0(SCALE as int);
    }
    let p2 = fx_mul_spec(river[idx], avg);
    assert(fx_mul_spec(p2, 0i64) == 0i64) by {
        assert((p2 as int) * 0 == 0) by (nonlinear_arith);
        vstd::arithmetic::div_mod::lemma_div_of0(SCALE as int);
    }
    assert(fx_mul_spec(0i64, 50_000) == 0i64) by {
        vstd::arithmetic::div_mod::lemma_div_of0(SCALE as int);
    }
}

/// With no rain, a whole hydraulic run leaves the grid untouched.
pub proof fn lemma_hyd_rain_zero(
    s: Seq<i64>,
    flow: Seq<u64>,
    maxf: int,
    river: Seq<i64>,
    n: int,
    it: nat,
)
    ensures
        hyd_iter(s, flow, maxf, river, 0i64, n, it) == s,
    decreases it,
{
    if it > 0 {
        lemma_hyd_rain_zero(s, flow, maxf, river, n, (it - 1) as nat);
        if n > 2 {
            lemma_hyd_sweep_rain_zero(s, flow, maxf, river, n, ((n - 2) * (n - 2)) as nat);
        }
    }
}

proof fn lemma_hyd_sweep_rain_zero(
    s: Seq<i64>,
    flow: Seq<u64>,
    maxf: int,
    river: Seq<i64>,
    n: int,
    k: nat,
)
    ensures
        hyd_sweep(s, flow, maxf, river, 0i64, n, k) == s,
    decreases k,
{
    if k > 0 {
        lemma_hyd_sweep_rain_zero(s, flow, maxf, river, n, (k - 1) as nat);
        lemma_hyd_cell_rain_zero(
            s,
            flow,
            maxf,
            river,
            n,
            1 + ((k - 1) as int) % (n - 2),
            1 + ((k - 1) as int) / (n - 2),
        );
    }
}

/// Apply one hydraulic step in place.
fn hyd_cell_ex(
    tmp: &mut Vec<i64>,
    flow: &Vec<u64>,
    maxf: u64,
    river: &Vec<i64>,
    rain: i64,
    n: usize,
    x: usize,
    y: usize,
)
    requires
        3 <= n <= MAX_SIZE,
        1 <= x < n - 1,
        1 <= y < n - 1,
        old(tmp)@.len() == n * n,
        forall|i: int| 0 <= i < old(tmp)@.len() ==> fx_valid(#[trigger] old(tmp)@[i]),
        flow@.len() == n * n,
        river@.len() == n * n,
        forall|i: int| 0 <= i < river@.len() ==> fx_valid(#[trigger] river@[i]),
        maxf > 0,
        fx_valid(rain),
    ensures
        final(tmp)@ == hyd_cell(
            old(tmp)@,
            flow@,
            maxf as int,
            river@,
            rain,
            n as int,
            x as int,
            y as int,
        ),
        final(tmp)@.len() == n * n,
        forall|i: int| 0 <= i < final(tmp)@.len() ==> fx_valid(#[trigger] final(tmp)@[i]),
{
    proof {
        assert(y * n + x < n * n && n * n <= 0xFFFF_FFFFusize) by (nonlinear_arith)
            requires
                x < n,
                y < n,
                n <= 65535,
        ;
    }
    let idx: usize = y * n + x;
    let h = tmp[idx];
    proof {
        assert(h == at(tmp@, n as int, x as int, y as int));
    }
    let mut sl_sum: i128 = 0;
    let mut d: usize = 0;
    while d < 8
        invariant
            d <= 8,
            3 <= n <= MAX_SIZE,
            1 <= x < n - 1,
            1 <= y < n - 1,
            tmp@ == old(tmp)@,
            tmp@.len() == n * n,
            forall|i: int| 0 <= i < tmp@.len() ==> fx_valid(#[trigger] tmp@[i]),
            h == at(tmp@, n as int, x as int, y as int),
            fx_valid(h),
            sl_sum == crate::water_system::nb_abs_sum(tmp@, n as int, x as int, y as int, d as nat),
            0 <= sl_sum <= (d as int) * 0x8000_0000_0000_0000,
        decreases 8 - d,
    {
        let (ddx, ddy) = nb_offset(d);
        let nx: usize = ((x as i64) + ddx) as usize;
        let ny: usize = ((y as i64) + ddy) as usize;
        proof {
            assert(ny * n + nx < n * n && n * n <= 0xFFFF_FFFFusize) by (nonlinear_arith)
                requires
                    nx < n,
                    ny < n,
                    n <= 65535,
            ;
        }
        let hn = tmp[ny * n + nx];
        proof {
            let cdx = crate::height_field::clampc(n as int, x as int + nb_dx(d as int));
            let cdy = crate::height_field::clampc(n as int, y as int + nb_dy(d as int));
            assert(cdx == x as int + nb_dx(d as int) && cdy == y as int + nb_dy(d as int));
            assert(hn == crate::height_field::at_clamped(
                tmp@,
                n as int,
                x as int + nb_dx(d as int),
                y as int + nb_dy(d as int),
            ));
        }
        let diff: i128 = (h as i128) - (hn as i128);
        let ad: i128 = if diff < 0 {
            -diff
        } else {
            diff
        };
        sl_sum = sl_sum + ad;
        proof {
            assert((d as int) * 0x8000_0000_0000_0000 + 0x8000_0000_0000_0000 == ((d as int) + 1)
                * 0x8000_0000_0000_0000) by (nonlinear_arith);
        }
        d = d + 1;
    }
    let avg = clamp_i128((sl_sum as u128 / 8u128) as i128);
    proof {
        assert(avg == clamp_spec(
            crate::water_system::nb_abs_sum(tmp@, n as int, x as int, y as int, 8) / 8,
        ));
        assert((flow@[idx as int] as int) * (SCALE as int) <= 0xFFFF_FFFF_FFFF_FFFF * 0x100000
            && (flow@[idx as int] as int) * (SCALE as int) >= 0) by (nonlinear_arith)
            requires
                0 <= flow@[idx as int] as int <= 0xFFFF_FFFF_FFFF_FFFF,
                0 < SCALE as int <= 0x100000,
        ;
    }
    let fnorm = clamp_i128((((flow[idx] as u128) * (SCALE as u128)) / (maxf as u128)) as i128);
    let he = fx_mul(fx_mul(fx_mul(fnorm, avg), rain), 20_000);
    let re = fx_mul(fx_mul(fx_mul(river[idx], avg), rain), 50_000);
    let tot = fx_add(he, re);
    if tot > 0 {
        let nv = fx_sub(h, tot);
        tmp[idx] = nv;
        let ghost s1 = tmp@;
        let hc = tmp[idx];
        let mut best: i128 = 0;
        let mut has: bool = false;
        let mut tgt: usize = 0;
        let mut d2: usize = 0;
        while d2 < 8
            invariant
                d2 <= 8,
                3 <= n <= MAX_SIZE,
                1 <= x < n - 1,
                1 <= y < n - 1,
                idx == y * n + x,
                idx < n * n,
                tmp@ == s1,
                tmp@.len() == n * n,
                forall|i: int| 0 <= i < tmp@.len() ==> fx_valid(#[trigger] tmp@[i]),
                hc == at(s1, n as int, x as int, y as int),
                best == hyd_best(s1, n as int, x as int, y as int, d2 as nat).0,
                has == (hyd_best(s1, n as int, x as int, y as int, d2 as nat).1 >= 0),
                has ==> tgt == hyd_best(s1, n as int, x as int, y as int, d2 as nat).1 && tgt < n
                    * n,
            decreases 8 - d2,
        {
            let (ddx, ddy) = nb_offset(d2);
            let nx: usize = ((x as i64) + ddx) as usize;
            let ny: usize = ((y as i64) + ddy) as usize;
            proof {
                assert(ny * n + nx < n * n && n * n <= 0xFFFF_FFFFusize) by (nonlinear_arith)
                    requires
                        nx < n,
                        ny < n,
                        n <= 65535,
                ;
            }
            let hn = tmp[ny * n + nx];
            let diff: i128 = (hc as i128) - (hn as i128);
            if diff > best {
                best = diff;
                has = true;
                tgt = ny * n + nx;
            }
            d2 = d2 + 1;
        }
        if has {
            let dep = fx_mul(tot, 300_000);
            let v = tmp[tgt];
            let w = fx_add(v, dep);
            tmp[tgt] = w;
        }
    }
}

/// Hydraulic erosion driven by a previously computed hydrology bundle:
/// `iterations` in-place sweeps of per-cell erosion with one-hop downstream
/// deposition. With zero rain intensity the grid is left pixel-identical;
/// a flow field with no supply at all is also a no-op.
pub fn apply_hydraulic_erosion(
    field: &mut HeightField,
    water_features: &WaterFeatures,
    params: &ErosionParams,
    iterations: u32,
)
    requires
        old(field).wf(),
        params.wf(),
        water_features.wf(),
        water_features.spec_size() == old(field).spec_size(),
    ensures
        final(field).wf(),
        final(field).spec_size() == old(field).spec_size(),
        flow_max(water_features.flow()) == 0 ==> final(field)@ == old(field)@,
        flow_max(water_features.flow()) > 0 ==> final(field)@ == hyd_iter(
            old(field)@,
            water_features.flow(),
            flow_max(water_features.flow()),
            water_features.river(),
            params.rain_intensity,
            old(field).spec_size(),
            iterations as nat,
        ),
        params.rain_intensity == 0 ==> final(field)@ == old(field)@,
{
    let n = field.size();
    let ghost s0 = field@;
    let flow = water_features.get_flow_accumulation();
    let river = water_features.get_river_mask();
    let maxf = crate::water_system::flow_max_ex(&flow);
    proof {
        if params.rain_intensity == 0 {
            lemma_hyd_rain_zero(
                s0,
                flow@,
                maxf as int,
                river@,
                n as int,
                iterations as nat,
            );
        }
    }
    if maxf == 0 {
        return ;
    }
    let mut it: u32 = 0;
    while it < iterations
        invariant
            it <= iterations,
            field.wf(),
            n == field.spec_size(),
            0 <= n <= MAX_SIZE,
            params.wf(),
            flow@ == water_features.flow(),
            river@ == water_features.river(),
            flow@.len() == n * n,
            river@.len() == n * n,
            forall|i: int| 0 <= i < river@.len() ==> fx_valid(#[trigger] river@[i]),
            maxf as int == flow_max(flow@),
            maxf > 0,
            field@ == hyd_iter(
                s0,
                flow@,
                maxf as int,
                river@,
                params.rain_intensity,
                n as int,
                it as nat,
            ),
        decreases iterations - it,
    {
        if n > 2 {
            let ghost pass0 = field@;
            let mut tmp = field.get_data();
            let inner: usize = n - 2;
            proof {
                assert(inner * inner <= n * n && n * n <= 0xFFFF_FFFFusize) by (nonlinear_arith)
                    requires
                        inner == n - 2,
                        3 <= n <= 65535,
                ;
            }
            let icount: usize = inner * inner;
            let mut k: usize = 0;
            while k < icount
                invariant
                    k <= icount,
                    icount == inner * inner,
                    inner == n - 2,
                    3 <= n <= MAX_SIZE,
                    params.wf(),
                    pass0.len() == n * n,
                    flow@.len() == n * n,
                    river@.len() == n * n,
                    forall|i: int| 0 <= i < river@.len() ==> fx_valid(#[trigger] river@[i]),
                    maxf > 0,
                    tmp@ == hyd_sweep(
                        pass0,
                        flow@,
                        maxf as int,
                        river@,
                        params.rain_intensity,
                        n as int,
                        k as nat,
                    ),
                    tmp@.len() == n * n,
                    forall|i: int| 0 <= i < tmp@.len() ==> fx_valid(#[trigger] tmp@[i]),
                decreases icount - k,
            {
                let x: usize = 1 + k % inner;
                let y: usize = 1 + k / inner;
                proof {
                    vstd::arithmetic::div_mod::lemma_fundamental_div_mod(k as int, inner as int);
                    assert((k as int) / (inner as int) < inner) by (nonlinear_arith)
                        requires
                            (k as int) < (inner as int) * (inner as int),
                            0 < inner as int,
                            (inner as int) * ((k as int) / (inner as int)) + (k as int) % (
                            inner as int) == k as int,
                            0 <= (k as int) % (inner as int) < inner as int,
                    ;
                }
                hyd_cell_ex(&mut tmp, &flow, maxf, &river, params.rain_intensity, n, x, y);
                k = k + 1;
            }
            proof {
                assert(valid_grid(tmp@, n as int));
                assert(tmp@ == hyd_pass(
                    pass0,
                    flow@,
                    maxf as int,
                    river@,
                    params.rain_intensity,
                    n as int,
                ));
            }
            field.replace_cells(tmp);
        } else {
            proof {
                assert(field@ == hyd_pass(
                    field@,
                    flow@,
                    maxf as int,
                    river@,
                    params.rain_intensity,
                    n as int,
                ));
            }
        }
        it = it + 1;
    }
}

/// Water-system parameters of the fast path (duration under ten years).
pub open spec fn fast_water_params(sea: i64) -> WaterSystemParams {
    WaterSystemParams {
        sea_level: clamp_spec(crate::fixed::div_trunc(sea as int, 1000)),
        river_threshold: 100_000,
        river_width: 8_000_000,
        river_depth: 50_000,
        coastal_erosion: 40_000,
        beach_width: 8_000_000,
    }
}

/// Water-system parameters of a full erosion run (lower river threshold,
/// so more of the drainage network counts as river).
pub open spec fn main_water_params(sea: i64) -> WaterSystemParams {
    WaterSystemParams {
        sea_level: clamp_spec(crate::fixed::div_trunc(sea as int, 1000)),
        river_threshold: 80_000,
        river_width: 8_000_000,
        river_depth: 50_000,
        coastal_erosion: 40_000,
        beach_width: 8_000_000,
    }
}

/// The terrain after the wind and thermal stages of a run: each process
/// runs only when its strength parameter is positive, for its scaled and
/// capped iteration count.
pub open spec fn geo_passes_spec(g1: Seq<i64>, n: int, p: ErosionParams) -> Seq<i64> {
    let g2 = if p.wind_strength > 0 {
        wind_iter(g1, n, p.wind_strength, wind_iterations_spec(p.time_years) as nat)
    } else {
        g1
    };
    if p.temperature_cycles > 0 {
        eth_iter(g2, n, p.temperature_cycles, thermal_iterations_spec(p.time_years) as nat)
    } else {
        g2
    }
}

/// The terrain after the hydraulic stage, driven by the features `w1` of
/// the hydrology evaluation that preceded it (a flow field with no supply
/// is a no-op, as in the pass itself).
pub open spec fn geo_hydraulic_spec(g4: Seq<i64>, w1: WaterFeatures, n: int, p: ErosionParams) -> Seq<i64> {
    if flow_max(w1.flow()) == 0 {
        g4
    } else {
        hyd_iter(
            g4,
            w1.flow(),
            flow_max(w1.flow()),
            w1.river(),
            p.rain_intensity,
            n,
            hydraulic_iterations_spec(p.time_years) as nat,
        )
    }
}

/// The rainy tail of a run: hydrology is re-evaluated on the wind- and
/// thermal-worn terrain `g3` (yielding `g4` and features `w1`), the
/// hydraulic passes follow exactly, and one final hydrology evaluation
/// turns the result into the returned terrain and features.
pub open spec fn geo_rain_chain(
    g3: Seq<i64>,
    n: int,
    p: ErosionParams,
    g4: Seq<i64>,
    w1: WaterFeatures,
    gfinal: Seq<i64>,
    r: WaterFeatures,
) -> bool {
    let wp = main_water_params(p.sea_level);
    &&& water_system_rel(g3, n, wp, g4, w1)
    &&& water_system_rel(geo_hydraulic_spec(g4, w1, n, p), n, wp, gfinal, r)
}

/// The stages after baseline hydrology: the wind and thermal passes run
/// exactly as specified on the carved terrain `g1`; with rain, the rainy
/// tail follows, otherwise the run ends there and returns the baseline
/// features `w0`.
pub open spec fn geo_main_stage(
    g1: Seq<i64>,
    w0: WaterFeatures,
    n: int,
    p: ErosionParams,
    gfinal: Seq<i64>,
    r: WaterFeatures,
) -> bool {
    let g3 = geo_passes_spec(g1, n, p);
    if p.rain_intensity > 0 {
        exists|g4: Seq<i64>, w1: WaterFeatures| #[trigger] geo_rain_chain(g3, n, p, g4, w1, gfinal, r)
    } else {
        gfinal == g3 && r == w0
    }
}

/// The whole main path of a geological run, chaining the input terrain
/// to the returned terrain and features: baseline hydrology first, then
/// the erosion stages. Each hydrology evaluation is specified
/// relationally, so its outputs are existential, but every link is tied
/// to its predecessor — the chain is anchored at the input terrain.
pub open spec fn geo_main_rel(
    g0: Seq<i64>,
    n: int,
    p: ErosionParams,
    gfinal: Seq<i64>,
    r: WaterFeatures,
) -> bool {
    exists|g1: Seq<i64>, w0: WaterFeatures|
        water_system_rel(g0, n, main_water_params(p.sea_level), g1, w0) && #[trigger] geo_main_stage(
            g1,
            w0,
            n,
            p,
            gfinal,
            r,
        )
}

proof fn lemma_interior_cell_coords(n: int, k: int)
    requires
        n >= 3,
        0 <= k < (n - 2) * (n - 2),
    ensures
        1 <= 1 + k % (n - 2) < n - 1,
        1 <= 1 + k / (n - 2) < n - 1,
{
    vstd::arithmetic::div_mod::lemma_fundamental_div_mod(k, n - 2);
    assert(0 <= k % (n - 2) < n - 2 && 0 <= k / (n - 2) < n - 2) by (nonlinear_arith)
        requires
            0 <= k < (n - 2) * (n - 2),
            0 < n - 2,
            (n - 2) * (k / (n - 2)) + k % (n - 2) == k,
            0 <= k % (n - 2) < n - 2,
    ;
}

proof fn lemma_wind_cell_len(s: Seq<i64>, n: int, x: int, y: int, ws: i64)
    requires
        s.len() == n * n,
        n >= 3,
        1 <= x < n - 1,
        1 <= y < n - 1,
    ensures
        wind_cell_step(s, n, x, y, ws).len() == s.len(),
{
    assert(0 <= y * n + x < n * n) by (nonlinear_arith)
        requires
            1 <= x < n,
            1 <= y < n,
    ;
}

proof fn lemma_wind_sweep_len(s: Seq<i64>, n: int, ws: i64, k: nat)
    requires
        s.len() == n * n,
        n >= 3,
        k <= (n - 2) * (n - 2),
    ensures
        wind_sweep(s, n, ws, k).len() == s.len(),
    decreases k,
{
    if k > 0 {
        lemma_wind_sweep_len(s, n, ws, (k - 1) as nat);
        lemma_interior_cell_coords(n, k - 1);
        lemma_wind_cell_len(
            wind_sweep(s, n, ws, (k - 1) as nat),
            n,
            1 + ((k - 1) as int) % (n - 2),
            1 + ((k - 1) as int) / (n - 2),
            ws,
        );
    }
}

proof fn lemma_wind_iter_len(s: Seq<i64>, n: int, ws: i64, it: nat)
    requires
        s.len() == n * n,
    ensures
        wind_iter(s, n, ws, it).len() == s.len(),
    decreases it,
{
    if it > 0 {
        lemma_wind_iter_len(s, n, ws, (it - 1) as nat);
        if n > 2 {
            lemma_wind_sweep_len(wind_iter(s, n, ws, (it - 1) as nat), n, ws, ((n - 2) * (n
                - 2)) as nat);
        }
    }
}

proof fn lemma_eth_cell_len(src: Seq<i64>, acc: Seq<i64>, n: int, x: int, y: int, cycles: i64, d: nat)
    requires
        acc.len() == n * n,
        n >= 3,
        1 <= x < n - 1,
        1 <= y < n - 1,
    ensures
        eth_cell_spec(src, acc, n, x, y, cycles, d).len() == acc.len(),
    decreases d,
{
    if d > 0 {
        lemma_eth_cell_len(src, acc, n, x, y, cycles, (d - 1) as nat);
        assert(0 <= (y + nb_dy((d - 1) as int)) * n + (x + nb_dx((d - 1) as int)) < n * n && 0 <= y
            * n + x < n * n) by (nonlinear_arith)
            requires
                1 <= x < n - 1,
                1 <= y < n - 1,
                3 <= n,
                -1 <= nb_dx((d - 1) as int) <= 1,
                -1 <= nb_dy((d - 1) as int) <= 1,
        ;
    }
}

proof fn lemma_eth_sweep_len(src: Seq<i64>, acc: Seq<i64>, n: int, cycles: i64, k: nat)
    requires
        acc.len() == n * n,
        n >= 3,
        k <= (n - 2) * (n - 2),
    ensures
        eth_sweep(src, acc, n, cycles, k).len() == acc.len(),
    decreases k,
{
    if k > 0 {
        lemma_eth_sweep_len(src, acc, n, cycles, (k - 1) as nat);
        lemma_interior_cell_coords(n, k - 1);
        lemma_eth_cell_len(
            src,
            eth_sweep(src, acc, n, cycles, (k - 1) as nat),
            n,
            1 + ((k - 1) as int) % (n - 2),
            1 + ((k - 1) as int) / (n - 2),
            cycles,
            8,
        );
    }
}

proof fn lemma_eth_iter_len(s: Seq<i64>, n: int, cycles: i64, it: nat)
    requires
        s.len() == n * n,
    ensures
        eth_iter(s, n, cycles, it).len() == s.len(),
    decreases it,
{
    if it > 0 {
        lemma_eth_iter_len(s, n, cycles, (it - 1) as nat);
        if n > 2 {
            lemma_eth_sweep_len(
                eth_iter(s, n, cycles, (it - 1) as nat),
                eth_iter(s, n, cycles, (it - 1) as nat),
                n,
                cycles,
                ((n - 2) * (n - 2)) as nat,
            );
        }
    }
}

proof fn lemma_hyd_best_range(s: Seq<i64>, n: int, x: int, y: int, d: nat)
    requires
        n >= 3,
        1 <= x < n - 1,
        1 <= y < n - 1,
    ensures
        hyd_best(s, n, x, y, d).1 == -1 || 0 <= hyd_best(s, n, x, y, d).1 < n * n,
    decreases d,
{
    if d > 0 {
        lemma_hyd_best_range(s, n, x, y, (d - 1) as nat);
        assert(0 <= (y + nb_dy((d - 1) as int)) * n + (x + nb_dx((d - 1) as int)) < n * n) by (
        nonlinear_arith)
            requires
                1 <= x < n - 1,
                1 <= y < n - 1,
                3 <= n,
                -1 <= nb_dx((d - 1) as int) <= 1,
                -1 <= nb_dy((d - 1) as int) <= 1,
        ;
    }
}

proof fn lemma_hyd_cell_len(
    s: Seq<i64>,
    flow: Seq<u64>,
    maxf: int,
    river: Seq<i64>,
    rain: i64,
    n: int,
    x: int,
    y: int,
)
    requires
        s.len() == n * n,
        n >= 3,
        1 <= x < n - 1,
        1 <= y < n - 1,
    ensures
        hyd_cell(s, flow, maxf, river, rain, n, x, y).len() == s.len(),
{
    assert(0 <= y * n + x < n * n) by (nonlinear_arith)
        requires
            1 <= x < n,
            1 <= y < n,
    ;
    lemma_hyd_best_range(
        s.update(
            y * n + x,
            fx_sub_spec(
                s[y * n + x],
                fx_add_spec(
                    fx_mul_spec(
                        fx_mul_spec(
                            fx_mul_spec(
                                clamp_spec(
                                    (flow[y * n + x] as int) * SCALE / maxf,
                                ),
                                clamp_spec(
                                    crate::water_system::nb_abs_sum(s, n, x, y, 8) / 8,
                                ),
                            ),
                            rain,
                        ),
                        20_000,
                    ),
                    fx_mul_spec(
                        fx_mul_spec(
                            fx_mul_spec(
                                river[y * n + x],
                                clamp_spec(
                                    crate::water_system::nb_abs_sum(s, n, x, y, 8) / 8,
                                ),
                            ),
                            rain,
                        ),
                        50_000,
                    ),
                ),
            ),
        ),
        n,
        x,
        y,
        8,
    );
}

proof fn lemma_hyd_sweep_len(
    s: Seq<i64>,
    flow: Seq<u64>,
    maxf: int,
    river: Seq<i64>,
    rain: i64,
    n: int,
    k: nat,
)
    requires
        s.len() == n * n,
        n >= 3,
        k <= (n - 2) * (n - 2),
    ensures
        hyd_sweep(s, flow, maxf, river, rain, n, k).len() == s.len(),
    decreases k,
{
    if k > 0 {
        lemma_hyd_sweep_len(s, flow, maxf, river, rain, n, (k - 1) as nat);
        lemma_interior_cell_coords(n, k - 1);
        lemma_hyd_cell_len(
            hyd_sweep(s, flow, maxf, river, rain, n, (k - 1) as nat),
            flow,
            maxf,
            river,
            rain,
            n,
            1 + ((k - 1) as int) % (n - 2),
            1 + ((k - 1) as int) / (n - 2),
        );
    }
}

proof fn lemma_hyd_iter_len(
    s: Seq<i64>,
    flow: Seq<u64>,
    maxf: int,
    river: Seq<i64>,
    rain: i64,
    n: int,
    it: nat,
)
    requires
        s.len() == n * n,
    ensures
        hyd_iter(s, flow, maxf, river, rain, n, it).len() == s.len(),
    decreases it,
{
    if it > 0 {
        lemma_hyd_iter_len(s, flow, maxf, river, rain, n, (it - 1) as nat);
        if n > 2 {
            lemma_hyd_sweep_len(
                hyd_iter(s, flow, maxf, river, rain, n, (it - 1) as nat),
                flow,
                maxf,
                river,
                rain,
                n,
                ((n - 2) * (n - 2)) as nat,
            );
        }
    }
}

/// Two main-path geological runs from the same terrain and parameters
/// agree on the final terrain and on every grid of the returned bundle:
/// every hydrology link of the chain is pinned by the flow routing law,
/// and the wind, thermal and hydraulic stages between the links are pure
/// functions of their inputs.
pub proof fn lemma_geo_main_deterministic(
    g0: Seq<i64>,
    n: int,
    p: ErosionParams,
    ga: Seq<i64>,
    ra: WaterFeatures,
    gb: Seq<i64>,
    rb: WaterFeatures,
)
    requires
        g0.len() == n * n,
        n >= 0,
        p.rain_intensity > 0,
        geo_main_rel(g0, n, p, ga, ra),
        geo_main_rel(g0, n, p, gb, rb),
    ensures
        ga == gb,
        ra.flow() == rb.flow(),
        ra.river() == rb.river(),
        ra.beach() == rb.beach(),
        ra.water() == rb.water(),
{
    let wp = main_water_params(p.sea_level);
    let (g1a, w0a) = choose|g1: Seq<i64>, w0: WaterFeatures|
        water_system_rel(g0, n, wp, g1, w0) && #[trigger] geo_main_stage(g1, w0, n, p, ga, ra);
    let (g1b, w0b) = choose|g1: Seq<i64>, w0: WaterFeatures|
        water_system_rel(g0, n, wp, g1, w0) && #[trigger] geo_main_stage(g1, w0, n, p, gb, rb);
    crate::water_system::lemma_water_system_deterministic(g0, n, wp, g1a, w0a, g1b, w0b);
    let g3 = geo_passes_spec(g1a, n, p);
    assert(geo_passes_spec(g1b, n, p) == g3);
    assert(g3.len() == n * n) by {
        let g2 = if p.wind_strength > 0 {
            wind_iter(g1a, n, p.wind_strength, wind_iterations_spec(p.time_years) as nat)
        } else {
            g1a
        };
        lemma_wind_iter_len(g1a, n, p.wind_strength, wind_iterations_spec(p.time_years) as nat);
        lemma_eth_iter_len(g2, n, p.temperature_cycles, thermal_iterations_spec(p.time_years) as nat);
    }
    let (g4a, w1a) = choose|g4: Seq<i64>, w1: WaterFeatures|
        #[trigger] geo_rain_chain(g3, n, p, g4, w1, ga, ra);
    let (g4b, w1b) = choose|g4: Seq<i64>, w1: WaterFeatures|
        #[trigger] geo_rain_chain(g3, n, p, g4, w1, gb, rb);
    crate::water_system::lemma_water_system_deterministic(g3, n, wp, g4a, w1a, g4b, w1b);
    let g5 = geo_hydraulic_spec(g4a, w1a, n, p);
    assert(geo_hydraulic_spec(g4b, w1b, n, p) == g5) by {
        assert(flow_max(w1b.flow()) == flow_max(w1a.flow()));
    }
    assert(g5.len() == n * n) by {
        if flow_max(w1a.flow()) != 0 {
            lemma_hyd_iter_len(
                g4a,
                w1a.flow(),
                flow_max(w1a.flow()),
                w1a.river(),
                p.rain_intensity,
                n,
                hydraulic_iterations_spec(p.time_years) as nat,
            );
        }
    }
    crate::water_system::lemma_water_system_deterministic(g5, n, wp, ga, ra, gb, rb);
}

/// The full geological simulation. Durations under ten years skip every
/// erosion process and return baseline hydrology computed with the fast
/// parameters. Otherwise: baseline hydrology, then wind, thermal and
/// hydraulic passes (each gated on its strength parameter, with iteration
/// counts scaled from the duration and capped), recomputing hydrology
/// around the hydraulic stage so the returned masks match eroded terrain.
pub fn apply_geological_erosion(field: &mut HeightField, params: &ErosionParams) -> (r:
    WaterFeatures)
    requires
        old(field).wf(),
        old(field).spec_size() >= 1,
        params.wf(),
    ensures
        final(field).wf(),
        final(field).spec_size() == old(field).spec_size(),
        r.wf(),
        r.spec_size() == old(field).spec_size(),
        params.time_years < FAST_PATH_YEARS ==> water_system_rel(
            old(field)@,
            old(field).spec_size(),
            fast_water_params(params.sea_level),
            final(field)@,
            r,
        ),
        params.time_years >= FAST_PATH_YEARS && params.rain_intensity > 0 ==> exists|g: Seq<i64>|
            water_system_rel(
                g,
                old(field).spec_size(),
                main_water_params(params.sea_level),
                final(field)@,
                r,
            ),
        params.time_years >= FAST_PATH_YEARS ==> geo_main_rel(
            old(field)@,
            old(field).spec_size(),
            *params,
            final(field)@,
            r,
        ),
{
    let n = field.size();
    let sea = crate::fixed::sdiv(params.sea_level, 1000);
    if params.time_years < FAST_PATH_YEARS {
        let wp = WaterSystemParams::new(sea, 100_000, 8_000_000, 50_000, 40_000, 8_000_000);
        proof {
            assert(wp == fast_water_params(params.sea_level));
        }
        let out = apply_water_system(field, &wp);
        return out;
    }
    let wind_iterations = capped_iterations(params.time_years, 100, 20);
    let thermal_iterations = capped_iterations(params.time_years, 50, 40);
    let hydraulic_iterations = capped_iterations(params.time_years, 25, 80);
    let wp = WaterSystemParams::new(sea, 80_000, 8_000_000, 50_000, 40_000, 8_000_000);
    proof {
        assert(wp == main_water_params(params.sea_level));
    }
    let ghost g_start = field@;
    let mut out = apply_water_system(field, &wp);
    let ghost g_after_base = field@;
    let ghost w0 = out;
    if params.wind_strength > 0 {
        apply_wind_erosion(field, params, wind_iterations);
    }
    if params.temperature_cycles > 0 {
        apply_thermal_erosion(field, params, thermal_iterations);
    }
    proof {
        assert(field@ == geo_passes_spec(g_after_base, n as int, *params));
    }
    let ghost g3 = field@;
    if params.rain_intensity > 0 {
        out = apply_water_system(field, &wp);
        let ghost g4 = field@;
        let ghost w1 = out;
        apply_hydraulic_erosion(field, &out, params, hydraulic_iterations);
        proof {
            assert(field@ == geo_hydraulic_spec(g4, w1, n as int, *params));
        }
        let ghost g_pre_final = field@;
        out = apply_water_system(field, &wp);
        proof {
            assert(water_system_rel(
                g_pre_final,
                n as int,
                main_water_params(params.sea_level),
                field@,
                out,
            ));
            assert(geo_rain_chain(g3, n as int, *params, g4, w1, field@, out));
            assert(geo_main_stage(g_after_base, w0, n as int, *params, field@, out));
        }
    } else {
        proof {
            assert(water_system_rel(
                g_start,
                n as int,
                main_water_params(params.sea_level),
                g_after_base,
                out,
            ));
            assert(geo_main_stage(g_after_base, w0, n as int, *params, field@, out));
        }
    }
    proof {
        assert(water_system_rel(
            g_start,
            n as int,
            main_water_params(params.sea_level),
            g_after_base,
            w0,
        ) && geo_main_stage(g_after_base, w0, n as int, *params, field@, out));
        assert(geo_main_rel(g_start, n as int, *params, field@, out));
    }
    out
}

/// `ceil(time / (divisor years))`, capped: the iteration count of one
/// erosion process, scaled from the simulated duration.
pub open spec fn capped_iterations_spec(time: i64, divisor: u64, cap: u32) -> int {
    let step = (divisor as int) * (SCALE as int);
    let q = ((time as int) + step - 1) / step;
    if q > cap as int {
        cap as int
    } else {
        q
    }
}

/// Wind, thermal and hydraulic iteration counts of a run.
pub open spec fn wind_iterations_spec(time: i64) -> int {
    capped_iterations_spec(time, 100, 20)
}

pub open spec fn thermal_iterations_spec(time: i64) -> int {
    capped_iterations_spec(time, 50, 40)
}

pub open spec fn hydraulic_iterations_spec(time: i64) -> int {
    capped_iterations_spec(time, 25, 80)
}

/// `ceil(time / (divisor years))`, capped.
fn capped_iterations(time: i64, divisor: u64, cap: u32) -> (r: u32)
    requires
        time >= 0,
        divisor > 0,
        cap >= 1,
    ensures
        r as int == capped_iterations_spec(time, divisor, cap),
        r <= cap,
{
    proof {
        assert(0 < (divisor as u128) * (SCALE as u128) && (divisor as u128) * (SCALE as u128)
            <= 0xFFFF_FFFF_FFFF_FFFFu128 * 0x100000u128) by (nonlinear_arith)
            requires
                0 < divisor as u128 <= 0xFFFF_FFFF_FFFF_FFFFu128,
                0 < SCALE as u128 <= 0x100000u128,
        ;
    }
    let step: u128 = (divisor as u128) * (SCALE as u128);
    let q: u128 = ((time as u128) + step - 1) / step;
    proof {
        vstd::arithmetic::div_mod::lemma_div_pos_is_pos(
            (time as int) + (step as int) - 1,
            step as int,
        );
    }
    if q > cap as u128 {
        cap
    } else {
        q as u32
    }
}

} // verus!
