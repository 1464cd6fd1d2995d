//! The hydrology engine: D8 flow accumulation, river and beach masks,
//! channel carving and coastal erosion, and the composed water system.

use vstd::prelude::*;

verus! {

use crate::MAX_SIZE;
use crate::fixed::SCALE;
use crate::fixed::clamp_spec;
use crate::fixed::div_trunc;
use crate::fixed::fx_mul_spec;
use crate::fixed::fx_valid;
use crate::fixed::iabs;
use crate::height_field::HeightField;
use crate::height_field::at;
use crate::height_field::valid_grid;

/// Distance to a diagonal neighbour, in scalar units: the floor of
/// `sqrt(2) * SCALE`.
pub const DIAG_DIST: i64 = 1_414_213;

/// Parameters of the composed water system.
#[derive(Clone, Copy, PartialEq, Eq, Structural)]
pub struct WaterSystemParams {
    pub sea_level: i64,
    pub river_threshold: i64,
    pub river_width: i64,
    pub river_depth: i64,
    pub coastal_erosion: i64,
    pub beach_width: i64,
}

impl WaterSystemParams {
    pub open spec fn wf(&self) -> bool {
        &&& fx_valid(self.sea_level)
        &&& 10 <= self.river_threshold < SCALE
        &&& fx_valid(self.river_width)
        &&& 0 <= self.river_depth
        &&& fx_valid(self.river_depth)
        &&& 0 <= self.coastal_erosion
        &&& fx_valid(self.coastal_erosion)
        &&& 1 <= self.beach_width <= crate::filters::MAX_RADIUS
    }

    pub fn new(
        sea_level: i64,
        river_threshold: i64,
        river_width: i64,
        river_depth: i64,
        coastal_erosion: i64,
        beach_width: i64,
    ) -> (r: WaterSystemParams)
        requires
            fx_valid(sea_level),
            10 <= river_threshold < SCALE,
            fx_valid(river_width),
            0 <= river_depth,
            fx_valid(river_depth),
            0 <= coastal_erosion,
            fx_valid(coastal_erosion),
            1 <= beach_width <= crate::filters::MAX_RADIUS,
        ensures
            r == (WaterSystemParams {
                sea_level,
                river_threshold,
                river_width,
                river_depth,
                coastal_erosion,
                beach_width,
            }),
            r.wf(),
    {
        WaterSystemParams {
            sea_level,
            river_threshold,
            river_width,
            river_depth,
            coastal_erosion,
            beach_width,
        }
    }
}

/// D8 direction offsets, in compass order starting north and turning
/// clockwise.
pub open spec fn d8_dx(d: int) -> int {
    if d == 0 {
        0
    } else if d == 1 {
        1
    } else if d == 2 {
        1
    } else if d == 3 {
        1
    } else if d == 4 {
        0
    } else if d == 5 {
        -1
    } else if d == 6 {
        -1
    } else {
        -1
    }
}

pub open spec fn d8_dy(d: int) -> int {
    if d == 0 {
        -1
    } else if d == 1 {
        -1
    } else if d == 2 {
        0
    } else if d == 3 {
        1
    } else if d == 4 {
        1
    } else if d == 5 {
        1
    } else if d == 6 {
        0
    } else {
        -1
    }
}

/// Distance to the `d`-th D8 neighbour, in scalar units.
pub open spec fn d8_dist(d: int) -> int {
    if d == 0 || d == 2 || d == 4 || d == 6 {
        SCALE as int
    } else {
        DIAG_DIST as int
    }
}

/// The `d`-th D8 offset and distance, as executable values.
fn d8_offset(d: usize) -> (r: (i64, i64, i64))
    requires
        d < 8,
    ensures
        r.0 as int == d8_dx(d as int),
        r.1 as int == d8_dy(d as int),
        r.2 as int == d8_dist(d as int),
        -1 <= r.0 <= 1,
        -1 <= r.1 <= 1,
        r.2 > 0,
{
    if d == 0 {
        (0, -1, SCALE)
    } else if d == 1 {
        (1, -1, DIAG_DIST)
    } else if d == 2 {
        (1, 0, SCALE)
    } else if d == 3 {
        (1, 1, DIAG_DIST)
    } else if d == 4 {
        (0, 1, SCALE)
    } else if d == 5 {
        (-1, 1, DIAG_DIST)
    } else if d == 6 {
        (-1, 0, SCALE)
    } else {
        (-1, -1, DIAG_DIST)
    }
}

/// Steepest-descent scan state after considering the first `d` D8
/// directions from `(x, y)`: the best positive slope seen (0 when none)
/// and the index of its neighbour (-1 when none). The slope toward a
/// neighbour is the height drop divided by the distance.
pub open spec fn d8_best(s: Seq<i64>, n: int, x: int, y: int, d: nat) -> (int, int)
    decreases d,
{
    if d == 0 {
        (0, -1)
    } else {
        let prev = d8_best(s, n, x, y, (d - 1) as nat);
        let dd = (d - 1) as int;
        let nx = x + d8_dx(dd);
        let ny = y + d8_dy(dd);
        if 0 <= nx < n && 0 <= ny < n {
            let sl = div_trunc((at(s, n, x, y) - at(s, n, nx, ny)) * SCALE, d8_dist(dd));
            if sl > prev.0 {
                (sl, ny * n + nx)
            } else {
                prev
            }
        } else {
            prev
        }
    }
}

/// The steepest strictly-downhill D8 neighbour of a cell, as a grid index,
/// or -1 when the cell is a local minimum (it then retains its flow).
pub open spec fn d8_target(s: Seq<i64>, n: int, x: int, y: int) -> int {
    d8_best(s, n, x, y, 8).1
}

/// The chosen target always lies strictly below the cell.
proof fn lemma_d8_best_props(s: Seq<i64>, n: int, x: int, y: int, d: nat)
    requires
        s.len() == n * n,
        n >= 1,
        0 <= x < n,
        0 <= y < n,
    ensures
        d8_best(s, n, x, y, d).0 >= 0,
        d8_best(s, n, x, y, d).1 >= 0 ==> {
            &&& d8_best(s, n, x, y, d).1 < n * n
            &&& (s[d8_best(s, n, x, y, d).1] as int) < at(s, n, x, y) as int
        },
        d8_best(s, n, x, y, d).0 == 0 ==> d8_best(s, n, x, y, d).1 == -1,
    decreases d,
{
    if d > 0 {
        lemma_d8_best_props(s, n, x, y, (d - 1) as nat);
        let dd = (d - 1) as int;
        let nx = x + d8_dx(dd);
        let ny = y + d8_dy(dd);
        if 0 <= nx < n && 0 <= ny < n {
            let h = at(s, n, x, y) as int;
            let hn = at(s, n, nx, ny) as int;
            let sl = div_trunc((h - hn) * SCALE, d8_dist(dd));
            let prev = d8_best(s, n, x, y, (d - 1) as nat);
            if sl > prev.0 {
                assert(sl > 0);
                assert(h > hn) by {
                    if h <= hn {
                        assert((h - hn) * SCALE <= 0) by (nonlinear_arith)
                            requires
                                h <= hn,
                        ;
                        if (h - hn) * SCALE >= 0 {
                            assert(sl == (h - hn) * SCALE / d8_dist(dd));
                            vstd::arithmetic::div_mod::lemma_div_pos_is_pos(
                                -((h - hn) * SCALE),
                                d8_dist(dd),
                            );
                            vstd::arithmetic::div_mod::lemma_div_pos_is_pos(
                                (h - hn) * SCALE,
                                d8_dist(dd),
                            );
                        } else {
                            vstd::arithmetic::div_mod::lemma_div_pos_is_pos(
                                -((h - hn) * SCALE),
                                d8_dist(dd),
                            );
                        }
                    }
                }
                assert(0 <= ny * n + nx < n * n) by (nonlinear_arith)
                    requires
                        0 <= nx < n,
                        0 <= ny < n,
                ;
                assert(s[ny * n + nx] == at(s, n, nx, ny));
            }
        }
    }
}

/// Steepest-descent target of cell `(x, y)`: whether one exists and its
/// grid index.
fn d8_target_ex(s: &Vec<i64>, n: usize, x: usize, y: usize) -> (r: (bool, usize))
    requires
        valid_grid(s@, n as int),
        1 <= n <= MAX_SIZE,
        x < n,
        y < n,
    ensures
        r.0 == (d8_target(s@, n as int, x as int, y as int) >= 0),
        r.0 ==> r.1 == d8_target(s@, n as int, x as int, y as int) && r.1 < n * n,
{
    proof {
        assert(y * n + x < n * n && n * n <= 0xFFFF_FFFFusize) by (nonlinear_arith)
            requires
                x < n,
                y < n,
                n <= 65535,
        ;
    }
    let h = s[y * n + x];
    proof {
        assert(h == at(s@, n as int, x as int, y as int));
    }
    let mut best: i128 = 0;
    let mut has: bool = false;
    let mut tgt: usize = 0;
    let mut d: usize = 0;
    while d < 8
        invariant
            d <= 8,
            valid_grid(s@, n as int),
            1 <= n <= MAX_SIZE,
            x < n,
            y < n,
            h == at(s@, n as int, x as int, y as int),
            best == d8_best(s@, n as int, x as int, y as int, d as nat).0,
            has == (d8_best(s@, n as int, x as int, y as int, d as nat).1 >= 0),
            has ==> tgt == d8_best(s@, n as int, x as int, y as int, d as nat).1 && tgt < n * n,
        decreases 8 - d,
    {
        let (ddx, ddy, dist) = d8_offset(d);
        let nxs: i64 = (x as i64) + ddx;
        let nys: i64 = (y as i64) + ddy;
        if 0 <= nxs && nxs < n as i64 && 0 <= nys && nys < n as i64 {
            let nx = nxs as usize;
            let ny = nys as usize;
            proof {
                assert(ny * n + nx < n * n && n * n <= 0xFFFF_FFFFusize) by (nonlinear_arith)
                    requires
                        nx < n,
                        ny < n,
                        n <= 65535,
                ;
            }
            let hn = s[ny * n + nx];
            proof {
                assert(hn == at(s@, n as int, nxs as int, nys as int));
            }
            let sl: i128 = crate::fixed::div_trunc_i128(
                ((h as i128) - (hn as i128)) * (SCALE as i128),
                dist as i128,
            );
            if sl > best {
                best = sl;
                has = true;
                tgt = ny * n + nx;
            }
        }
        d = d + 1;
    }
    (has, tgt)
}

/// Sum of the first `k` flow values.
pub open spec fn sum_to(f: Seq<u64>, k: int) -> int
    decreases k,
{
    if k <= 0 {
        0
    } else {
        sum_to(f, k - 1) + f[k - 1]
    }
}

/// Sum of the first `k` flow values of cells not yet processed.
pub open spec fn sum_unproc_to(f: Seq<u64>, p: Seq<bool>, k: int) -> int
    decreases k,
{
    if k <= 0 {
        0
    } else {
        sum_unproc_to(f, p, k - 1) + if p[k - 1] {
            0int
        } else {
            f[k - 1] as int
        }
    }
}

proof fn lemma_sum_to_update(f: Seq<u64>, k: int, i: int, v: u64)
    requires
        0 <= i < f.len(),
        k <= f.len(),
    ensures
        sum_to(f.update(i, v), k) == sum_to(f, k) + if i < k {
            v - f[i]
        } else {
            0int
        },
    decreases k,
{
    if k > 0 {
        lemma_sum_to_update(f, k - 1, i, v);
    }
}

proof fn lemma_sum_unproc_update_flow(f: Seq<u64>, p: Seq<bool>, k: int, i: int, v: u64)
    requires
        0 <= i < f.len(),
        p.len() == f.len(),
        k <= f.len(),
    ensures
        sum_unproc_to(f.update(i, v), p, k) == sum_unproc_to(f, p, k) + if i < k && !p[i] {
            v - f[i]
        } else {
            0int
        },
    decreases k,
{
    if k > 0 {
        lemma_sum_unproc_update_flow(f, p, k - 1, i, v);
    }
}

proof fn lemma_sum_unproc_mark(f: Seq<u64>, p: Seq<bool>, k: int, i: int)
    requires
        0 <= i < f.len(),
        p.len() == f.len(),
        k <= f.len(),
    ensures
        sum_unproc_to(f, p.update(i, true), k) == sum_unproc_to(f, p, k) - if i < k && !p[i] {
            f[i] as int
        } else {
            0int
        },
    decreases k,
{
    if k > 0 {
        lemma_sum_unproc_mark(f, p, k - 1, i);
    }
}

proof fn lemma_sum_unproc_nonneg(f: Seq<u64>, p: Seq<bool>, k: int)
    requires
        k <= f.len(),
        p.len() == f.len(),
    ensures
        sum_unproc_to(f, p, k) >= 0,
    decreases k,
{
    if k > 0 {
        lemma_sum_unproc_nonneg(f, p, k - 1);
    }
}

proof fn lemma_sum_unproc_elem(f: Seq<u64>, p: Seq<bool>, k: int, i: int)
    requires
        0 <= i < k,
        k <= f.len(),
        p.len() == f.len(),
        !p[i],
    ensures
        f[i] <= sum_unproc_to(f, p, k),
    decreases k,
{
    if i == k - 1 {
        lemma_sum_unproc_nonneg(f, p, k - 1);
    } else {
        lemma_sum_unproc_elem(f, p, k - 1, i);
    }
}

proof fn lemma_sum_unproc_pair(f: Seq<u64>, p: Seq<bool>, k: int, i: int, j: int)
    requires
        0 <= i < k,
        0 <= j < k,
        i != j,
        k <= f.len(),
        p.len() == f.len(),
        !p[i],
        !p[j],
    ensures
        f[i] + f[j] <= sum_unproc_to(f, p, k),
    decreases k,
{
    if j == k - 1 {
        lemma_sum_unproc_elem(f, p, k - 1, i);
    } else if i == k - 1 {
        lemma_sum_unproc_elem(f, p, k - 1, j);
    } else {
        lemma_sum_unproc_pair(f, p, k - 1, i, j);
    }
}

/// Flow routed into cell `c` by the first `k` cells: the sum of the
/// routed amounts of every cell whose steepest-descent target is `c`.
pub open spec fn inflow_to(s: Seq<i64>, n: int, routed: Seq<u64>, c: int, k: int) -> int
    decreases k,
{
    if k <= 0 {
        0
    } else {
        inflow_to(s, n, routed, c, k - 1) + if d8_target(s, n, (k - 1) % n, (k - 1) / n) == c {
            routed[k - 1] as int
        } else {
            0int
        }
    }
}

/// The same routed inflow restricted to cells already processed.
spec fn inflow_proc_to(
    s: Seq<i64>,
    n: int,
    routed: Seq<u64>,
    p: Seq<bool>,
    c: int,
    k: int,
) -> int
    decreases k,
{
    if k <= 0 {
        0
    } else {
        inflow_proc_to(s, n, routed, p, c, k - 1) + if p[k - 1] && d8_target(
            s,
            n,
            (k - 1) % n,
            (k - 1) / n,
        ) == c {
            routed[k - 1] as int
        } else {
            0int
        }
    }
}

proof fn lemma_inflow_proc_none(s: Seq<i64>, n: int, routed: Seq<u64>, p: Seq<bool>, c: int, k: int)
    requires
        k <= p.len(),
        forall|j: int| 0 <= j < k ==> !(#[trigger] p[j]),
    ensures
        inflow_proc_to(s, n, routed, p, c, k) == 0,
    decreases k,
{
    if k > 0 {
        lemma_inflow_proc_none(s, n, routed, p, c, k - 1);
    }
}

proof fn lemma_inflow_proc_update_routed(
    s: Seq<i64>,
    n: int,
    routed: Seq<u64>,
    p: Seq<bool>,
    c: int,
    k: int,
    j: int,
    v: u64,
)
    requires
        0 <= j < routed.len(),
        p.len() == routed.len(),
        k <= routed.len(),
        !p[j],
    ensures
        inflow_proc_to(s, n, routed.update(j, v), p, c, k) == inflow_proc_to(s, n, routed, p, c, k),
    decreases k,
{
    if k > 0 {
        lemma_inflow_proc_update_routed(s, n, routed, p, c, k - 1, j, v);
    }
}

proof fn lemma_inflow_proc_mark(
    s: Seq<i64>,
    n: int,
    routed: Seq<u64>,
    p: Seq<bool>,
    c: int,
    k: int,
    j: int,
)
    requires
        0 <= j < p.len(),
        routed.len() == p.len(),
        k <= p.len(),
    ensures
        inflow_proc_to(s, n, routed, p.update(j, true), c, k) == inflow_proc_to(
            s,
            n,
            routed,
            p,
            c,
            k,
        ) + if j < k && !p[j] && d8_target(s, n, j % n, j / n) == c {
            routed[j] as int
        } else {
            0int
        },
    decreases k,
{
    if k > 0 {
        lemma_inflow_proc_mark(s, n, routed, p, c, k - 1, j);
    }
}

proof fn lemma_inflow_all_proc(
    s: Seq<i64>,
    n: int,
    routed: Seq<u64>,
    p: Seq<bool>,
    c: int,
    k: int,
)
    requires
        routed.len() == p.len(),
        k <= p.len(),
        forall|j: int| 0 <= j < k ==> #[trigger] p[j],
    ensures
        inflow_proc_to(s, n, routed, p, c, k) == inflow_to(s, n, routed, c, k),
    decreases k,
{
    if k > 0 {
        lemma_inflow_all_proc(s, n, routed, p, c, k - 1);
    }
}

/// Number of cells among the first `k` strictly higher than `h`.
spec fn count_higher(s: Seq<i64>, h: i64, k: int) -> int
    decreases k,
{
    if k <= 0 {
        0
    } else {
        count_higher(s, h, k - 1) + if s[k - 1] > h {
            1int
        } else {
            0int
        }
    }
}

proof fn lemma_count_higher_nonneg(s: Seq<i64>, h: i64, k: int)
    ensures
        count_higher(s, h, k) >= 0,
    decreases k,
{
    if k > 0 {
        lemma_count_higher_nonneg(s, h, k - 1);
    }
}

proof fn lemma_count_higher_mono(s: Seq<i64>, h1: i64, h2: i64, k: int)
    requires
        h2 <= h1,
    ensures
        count_higher(s, h1, k) <= count_higher(s, h2, k),
    decreases k,
{
    if k > 0 {
        lemma_count_higher_mono(s, h1, h2, k - 1);
    }
}

/// A cell strictly above `hc` sees strictly fewer cells above itself than
/// above `hc`: the well-founded measure of the routing recursion.
proof fn lemma_count_higher_strict(s: Seq<i64>, hc: i64, j: int, k: int)
    requires
        0 <= j < k,
        s[j] > hc,
    ensures
        count_higher(s, s[j], k) < count_higher(s, hc, k),
    decreases k,
{
    if j == k - 1 {
        lemma_count_higher_mono(s, s[j], hc, k - 1);
    } else {
        lemma_count_higher_strict(s, hc, j, k - 1);
    }
}

proof fn lemma_inflow_congruent(s: Seq<i64>, n: int, r1: Seq<u64>, r2: Seq<u64>, c: int, k: int)
    requires
        forall|j: int|
            0 <= j < k && #[trigger] d8_target(s, n, j % n, j / n) == c ==> r1[j] == r2[j],
    ensures
        inflow_to(s, n, r1, c, k) == inflow_to(s, n, r2, c, k),
    decreases k,
{
    if k > 0 {
        lemma_inflow_congruent(s, n, r1, r2, c, k - 1);
    }
}

proof fn lemma_flow_unique_cell(
    s: Seq<i64>,
    n: int,
    f1: Seq<u64>,
    r1: Seq<u64>,
    f2: Seq<u64>,
    r2: Seq<u64>,
    c: int,
)
    requires
        s.len() == n * n,
        n >= 1,
        f1.len() == s.len(),
        f2.len() == s.len(),
        flow_routing_law(s, n, f1, r1),
        flow_routing_law(s, n, f2, r2),
        0 <= c < s.len(),
    ensures
        f1[c] == f2[c],
        r1[c] == r2[c],
    decreases count_higher(s, s[c], s.len() as int),
{
    let len = s.len() as int;
    // every cell that routes into c lies strictly higher, so its flow is
    // settled by cells higher still
    assert forall|j: int|
        0 <= j < len && #[trigger] d8_target(s, n, j % n, j / n) == c implies r1[j] == r2[j] by {
        let x = j % n;
        let y = j / n;
        vstd::arithmetic::div_mod::lemma_fundamental_div_mod(j, n);
        assert(0 <= x < n && 0 <= y < n && y * n + x == j) by (nonlinear_arith)
            requires
                0 <= j < n * n,
                0 < n,
                n * (j / n) + j % n == j,
                0 <= j % n < n,
                x == j % n,
                y == j / n,
        ;
        lemma_d8_best_props(s, n, x, y, 8);
        assert(s[c] < s[j]);
        lemma_count_higher_strict(s, s[c], j, len);
        lemma_count_higher_nonneg(s, s[j], len);
        lemma_flow_unique_cell(s, n, f1, r1, f2, r2, j);
    }
    lemma_inflow_congruent(s, n, r1, r2, c, len);
}

/// The routing law pins the hydrology: over one terrain there is exactly
/// one flow field (and one routed field) satisfying it. Every mask the
/// water system derives is a function of that flow, so hydrology — and
/// with it the whole generation pipeline — is a deterministic function of
/// the terrain and parameters.
pub proof fn lemma_flow_routing_unique(
    s: Seq<i64>,
    n: int,
    f1: Seq<u64>,
    r1: Seq<u64>,
    f2: Seq<u64>,
    r2: Seq<u64>,
)
    requires
        s.len() == n * n,
        n >= 0,
        f1.len() == s.len(),
        f2.len() == s.len(),
        flow_routing_law(s, n, f1, r1),
        flow_routing_law(s, n, f2, r2),
    ensures
        f1 == f2,
        r1 == r2,
{
    if s.len() > 0 {
        assert(n >= 1) by (nonlinear_arith)
            requires
                n >= 0,
                n * n > 0,
        ;
        assert forall|c: int| 0 <= c < s.len() implies #[trigger] f1[c] == f2[c] by {
            lemma_flow_unique_cell(s, n, f1, r1, f2, r2, c);
        }
        assert forall|c: int| 0 <= c < s.len() implies #[trigger] r1[c] == r2[c] by {
            lemma_flow_unique_cell(s, n, f1, r1, f2, r2, c);
        }
    }
    assert(f1 =~= f2);
    assert(r1 =~= r2);
}

/// Two water-system evaluations of the same terrain with the same
/// parameters agree on everything they produce: the flow field is unique
/// by the routing law, and every mask and the carved terrain are exact
/// functions of it.
pub proof fn lemma_water_system_deterministic(
    g0: Seq<i64>,
    n: int,
    p: WaterSystemParams,
    g1a: Seq<i64>,
    wa: WaterFeatures,
    g1b: Seq<i64>,
    wb: WaterFeatures,
)
    requires
        g0.len() == n * n,
        n >= 0,
        water_system_rel(g0, n, p, g1a, wa),
        water_system_rel(g0, n, p, g1b, wb),
    ensures
        wa.flow() == wb.flow(),
        wa.river() == wb.river(),
        wa.beach() == wb.beach(),
        g1a == g1b,
        wa.water() == wb.water(),
{
    let ra = choose|r: Seq<u64>| flow_routing_law(g0, n, wa.flow(), r);
    let rb = choose|r: Seq<u64>| flow_routing_law(g0, n, wb.flow(), r);
    lemma_flow_routing_unique(g0, n, wa.flow(), ra, wb.flow(), rb);
}

/// D8 flow accumulation. Every cell starts with one unit of intrinsic
/// flow; cells are visited from the highest down, and each visited cell
/// drains everything it has accumulated to its steepest strictly-downhill
/// neighbour, recording the amount it routed. Local minima route nothing.
///
/// The contract pins the routing completely: every cell keeps at least
/// its own unit and never exceeds the grid's supply; a cell with a
/// strictly downhill neighbour routes exactly its accumulated flow (a
/// local minimum routes nothing); each cell's flow is one unit plus the
/// inflow routed to it by the cells whose steepest-descent target it is;
/// and the total flow equals one unit per cell plus everything routed.
pub fn calculate_flow_accumulation(field: &HeightField) -> (r: (Vec<u64>, Vec<u64>))
    requires
        field.wf(),
    ensures
        r.0@.len() == field@.len(),
        r.1@.len() == field@.len(),
        forall|i: int| 0 <= i < r.0@.len() ==> 1 <= #[trigger] r.0@[i] <= field@.len(),
        forall|i: int| 0 <= i < r.1@.len() ==> #[trigger] r.1@[i] <= field@.len(),
        sum_to(r.0@, field@.len() as int) == field@.len() + sum_to(r.1@, field@.len() as int),
        forall|i: int|
            0 <= i < r.1@.len() ==> (#[trigger] r.1@[i]) as int == if d8_target(
                field@,
                field.spec_size(),
                i % field.spec_size(),
                i / field.spec_size(),
            ) >= 0 {
                r.0@[i] as int
            } else {
                0int
            },
        forall|c: int|
            0 <= c < r.0@.len() ==> (#[trigger] r.0@[c]) as int == 1 + inflow_to(
                field@,
                field.spec_size(),
                r.1@,
                c,
                field@.len() as int,
            ),
{
    let n = field.size();
    let s = field.cells();
    proof {
        assert(n * n <= 0xFFFF_FFFFusize) by (nonlinear_arith)
            requires
                n <= 65535,
        ;
    }
    let len: usize = n * n;
    let mut flow: Vec<u64> = Vec::new();
    let mut routed: Vec<u64> = Vec::new();
    let mut proc: Vec<bool> = Vec::new();
    let mut i: usize = 0;
    while i < len
        invariant
            i <= len,
            flow@.len() == i,
            routed@.len() == i,
            proc@.len() == i,
            forall|q: int| 0 <= q < i ==> #[trigger] flow@[q] == 1u64,
            forall|q: int| 0 <= q < i ==> #[trigger] routed@[q] == 0u64,
            forall|q: int| 0 <= q < i ==> #[trigger] proc@[q] == false,
        decreases len - i,
    {
        flow.push(1);
        routed.push(0);
        proc.push(false);
        i = i + 1;
    }
    proof {
        lemma_sum_init(flow@, proc@, len as int);
        lemma_sum_zero(routed@, len as int);
        assert forall|cc: int|
            0 <= cc < len implies (#[trigger] flow@[cc]) as int == 1 + inflow_proc_to(
            s@,
            n as int,
            routed@,
            proc@,
            cc,
            len as int,
        ) by {
            lemma_inflow_proc_none(s@, n as int, routed@, proc@, cc, len as int);
        }
    }
    let mut step: usize = 0;
    while step < len
        invariant
            step <= len,
            len == n * n,
            1 <= n <= MAX_SIZE || (n == 0 && len == 0),
            field.wf(),
            n == field.spec_size(),
            s@ == field@,
            s@.len() == len,
            flow@.len() == len,
            routed@.len() == len,
            proc@.len() == len,
            count_proc_to(proc@, len as int) == step,
            sum_unproc_to(flow@, proc@, len as int) <= len,
            forall|q: int| 0 <= q < len ==> 1 <= #[trigger] flow@[q] <= len,
            forall|q: int| 0 <= q < len ==> #[trigger] routed@[q] <= len,
            forall|q: int, w: int|
                0 <= q < len && 0 <= w < len && proc@[q] && !proc@[w] ==> (s@[q] as int)
                    >= (s@[w] as int),
            sum_to(flow@, len as int) == len + sum_to(routed@, len as int),
            forall|q: int| 0 <= q < len && !proc@[q] ==> (#[trigger] routed@[q]) == 0u64,
            forall|q: int|
                0 <= q < len && proc@[q] ==> (#[trigger] routed@[q]) as int == (if d8_target(
                    s@,
                    n as int,
                    q % (n as int),
                    q / (n as int),
                ) >= 0 {
                    flow@[q] as int
                } else {
                    0int
                }),
            forall|cc: int|
                0 <= cc < len ==> (#[trigger] flow@[cc]) as int == 1 + inflow_proc_to(
                    s@,
                    n as int,
                    routed@,
                    proc@,
                    cc,
                    len as int,
                ),
        decreases len - step,
    {
        let c = pick_highest_unprocessed(s, &proc, len, Ghost(step as int));
        let x: usize = c % n;
        let y: usize = c / n;
        proof {
            vstd::arithmetic::div_mod::lemma_fundamental_div_mod(c as int, n as int);
            assert((c as int) / (n as int) < n) by (nonlinear_arith)
                requires
                    (c as int) < (n as int) * (n as int),
                    0 < n as int,
                    (n as int) * ((c as int) / (n as int)) + (c as int) % (n as int) == c as int,
                    0 <= (c as int) % (n as int) < n as int,
            ;
        }
        let (has, tgt) = d8_target_ex(s, n, x, y);
        let ghost flow0 = flow@;
        let ghost proc0 = proc@;
        let ghost routed0 = routed@;
        let ghost fc_g: u64 = flow@[c as int];
        if has {
            proof {
                lemma_d8_best_props(s@, n as int, x as int, y as int, 8);
                assert((y as int) * (n as int) + (x as int) == c as int) by (nonlinear_arith)
                    requires
                        (n as int) * ((c as int) / (n as int)) + (c as int) % (n as int)
                            == c as int,
                        y as int == (c as int) / (n as int),
                        x as int == (c as int) % (n as int),
                ;
                assert(s@[tgt as int] < s@[c as int]);
                // the target is strictly lower than every processed cell, so
                // it is still unprocessed
                assert(!proc@[tgt as int]);
                assert(tgt != c);
                lemma_sum_unproc_pair(flow@, proc@, len as int, c as int, tgt as int);
            }
            let fc = flow[c];
            let ft = flow[tgt];
            flow[tgt] = ft + fc;
            routed[c] = fc;
            proof {
                lemma_sum_unproc_update_flow(flow0, proc0, len as int, tgt as int, (ft + fc) as u64);
                lemma_sum_to_update(flow0, len as int, tgt as int, (ft + fc) as u64);
                lemma_sum_to_update(routed0, len as int, c as int, fc);
                lemma_sum_unproc_elem(flow@, proc@, len as int, c as int);
            }
        }
        let ghost flow1 = flow@;
        let ghost routed1 = routed@;
        proc[c] = true;
        proof {
            lemma_count_mark(proc0, len as int, c as int);
            lemma_sum_unproc_mark(flow1, proc0, len as int, c as int);
            lemma_sum_unproc_elem(flow1, proc0, len as int, c as int);
            // per-cell inflow bookkeeping: setting the routed amount of the
            // still-unprocessed cell changes no processed inflow, and marking
            // it processed adds its routed amount to its target's inflow,
            // exactly matching the flow the target just received
            assert forall|cc: int|
                0 <= cc < len implies (#[trigger] flow@[cc]) as int == 1 + inflow_proc_to(
                s@,
                n as int,
                routed@,
                proc@,
                cc,
                len as int,
            ) by {
                if has {
                    lemma_inflow_proc_update_routed(
                        s@,
                        n as int,
                        routed0,
                        proc0,
                        cc,
                        len as int,
                        c as int,
                        fc_g,
                    );
                }
                lemma_inflow_proc_mark(s@, n as int, routed1, proc0, cc, len as int, c as int);
            }
        }
        step = step + 1;
    }
    proof {
        lemma_count_all(proc@, len as int);
        assert forall|cc: int|
            0 <= cc < len implies (#[trigger] flow@[cc]) as int == 1 + inflow_to(
            s@,
            n as int,
            routed@,
            cc,
            len as int,
        ) by {
            lemma_inflow_all_proc(s@, n as int, routed@, proc@, cc, len as int);
        }
    }
    (flow, routed)
}

/// Number of processed cells among the first `k`.
pub open spec fn count_proc_to(p: Seq<bool>, k: int) -> int
    decreases k,
{
    if k <= 0 {
        0
    } else {
        count_proc_to(p, k - 1) + if p[k - 1] {
            1int
        } else {
            0int
        }
    }
}

proof fn lemma_count_mark(p: Seq<bool>, k: int, i: int)
    requires
        0 <= i < p.len(),
        k <= p.len(),
    ensures
        count_proc_to(p.update(i, true), k) == count_proc_to(p, k) + if i < k && !p[i] {
            1int
        } else {
            0int
        },
    decreases k,
{
    if k > 0 {
        lemma_count_mark(p, k - 1, i);
    }
}

proof fn lemma_count_le(p: Seq<bool>, k: int)
    requires
        0 <= k <= p.len(),
    ensures
        0 <= count_proc_to(p, k) <= k,
    decreases k,
{
    if k > 0 {
        lemma_count_le(p, k - 1);
    }
}

proof fn lemma_count_all(p: Seq<bool>, k: int)
    requires
        0 <= k <= p.len(),
        count_proc_to(p, k) == k,
    ensures
        forall|i: int| 0 <= i < k ==> #[trigger] p[i],
    decreases k,
{
    if k > 0 {
        lemma_count_le(p, k - 1);
        lemma_count_all(p, k - 1);
    }
}

proof fn lemma_sum_init(f: Seq<u64>, p: Seq<bool>, k: int)
    requires
        0 <= k <= f.len(),
        p.len() == f.len(),
        forall|q: int| 0 <= q < f.len() ==> #[trigger] f[q] == 1u64,
        forall|q: int| 0 <= q < p.len() ==> #[trigger] p[q] == false,
    ensures
        sum_to(f, k) == k,
        sum_unproc_to(f, p, k) == k,
        count_proc_to(p, k) == 0,
    decreases k,
{
    if k > 0 {
        lemma_sum_init(f, p, k - 1);
    }
}

proof fn lemma_sum_zero(f: Seq<u64>, k: int)
    requires
        0 <= k <= f.len(),
        forall|q: int| 0 <= q < f.len() ==> #[trigger] f[q] == 0u64,
    ensures
        sum_to(f, k) == 0,
    decreases k,
{
    if k > 0 {
        lemma_sum_zero(f, k - 1);
    }
}

/// Index of the highest cell not yet processed. Heights are read from
/// `s`; the count of processed cells must leave at least one candidate.
fn pick_highest_unprocessed(s: &Vec<i64>, proc: &Vec<bool>, len: usize, Ghost(step): Ghost<int>) -> (r:
    usize)
    requires
        s@.len() == len,
        proc@.len() == len,
        count_proc_to(proc@, len as int) == step,
        0 <= step < len,
    ensures
        r < len,
        !proc@[r as int],
        forall|q: int| 0 <= q < len && !proc@[q] ==> (s@[q] as int) <= (s@[r as int] as int),
{
    let mut found: bool = false;
    let mut best: usize = 0;
    let mut j: usize = 0;
    while j < len
        invariant
            j <= len,
            s@.len() == len,
            proc@.len() == len,
            found ==> best < len && !proc@[best as int],
            found ==> forall|q: int|
                0 <= q < j && !proc@[q] ==> (s@[q] as int) <= (s@[best as int] as int),
            !found ==> forall|q: int| 0 <= q < j ==> #[trigger] proc@[q],
        decreases len - j,
    {
        if !proc[j] {
            if !found || s[j] > s[best] {
                best = j;
                found = true;
            }
        }
        j = j + 1;
    }
    proof {
        if !found {
            lemma_count_all_true(proc@, len as int);
        }
    }
    best
}

proof fn lemma_count_all_true(p: Seq<bool>, k: int)
    requires
        0 <= k <= p.len(),
        forall|i: int| 0 <= i < k ==> #[trigger] p[i],
    ensures
        count_proc_to(p, k) == k,
    decreases k,
{
    if k > 0 {
        lemma_count_all_true(p, k - 1);
    }
}

/// Half strength: the dilation threshold of the river mask.
pub const HALF_SCALE: i64 = 500_000;

/// Sixty percent: the dilation strength of the river mask.
pub const SIX_TENTHS: i64 = 600_000;

/// One and a half cells, in scalar units: the dilation reach.
pub const REACH: i64 = 1_500_000;

/// Greatest flow value of a sequence (0 when empty).
pub open spec fn flow_max(f: Seq<u64>) -> int
    decreases f.len(),
{
    if f.len() == 0 {
        0
    } else {
        let m = flow_max(f.drop_last());
        if (f.last() as int) > m {
            f.last() as int
        } else {
            m
        }
    }
}

proof fn lemma_flow_max_props(f: Seq<u64>)
    ensures
        forall|i: int| 0 <= i < f.len() ==> (#[trigger] f[i]) as int <= flow_max(f),
        flow_max(f) >= 0,
        f.len() > 0 ==> exists|i: int| 0 <= i < f.len() && (f[i] as int) == flow_max(f),
    decreases f.len(),
{
    if f.len() > 0 {
        lemma_flow_max_props(f.drop_last());
        assert forall|i: int| 0 <= i < f.len() implies (#[trigger] f[i]) as int <= flow_max(f) by {
            if i < f.len() - 1 {
                assert(f.drop_last()[i] == f[i]);
            }
        }
        if (f.last() as int) > flow_max(f.drop_last()) {
            assert(f[f.len() - 1] as int == flow_max(f));
        } else if f.len() == 1 {
            assert(f[0] as int == flow_max(f));
        } else {
            let j = choose|j: int|
                0 <= j < f.drop_last().len() && (f.drop_last()[j] as int) == flow_max(
                    f.drop_last(),
                );
            assert(f.drop_last()[j] == f[j]);
            assert(f[j] as int == flow_max(f));
        }
    }
}

/// Base river strength of a cell before dilation: normalized flow above the
/// threshold maps onto `[0, SCALE]`; flow above three tenths of the
/// threshold forms a weaker bank band.
pub open spec fn river_base_spec(fv: u64, maxf: int, t: i64) -> i64 {
    let nf = (fv as int) * SCALE / maxf;
    let t3 = fx_mul_spec(t, 300_000);
    let t7 = fx_mul_spec(t, 700_000);
    if nf > t {
        let v = (nf - t) * SCALE / (SCALE - t);
        if v > SCALE {
            SCALE
        } else {
            v as i64
        }
    } else if nf > t3 {
        let bank = (nf - t3) * SCALE / (t7 as int);
        fx_mul_spec(clamp_spec(bank), 300_000)
    } else {
        0i64
    }
}

/// The base river grid; all zero when the flow field is all zero.
pub open spec fn river_base_grid(flow: Seq<u64>, t: i64) -> Seq<i64> {
    if flow_max(flow) == 0 {
        Seq::new(flow.len(), |i: int| 0i64)
    } else {
        Seq::new(flow.len(), |i: int| river_base_spec(flow[i], flow_max(flow), t))
    }
}

/// Dilation falloff of the 3x3 offset `o` (row-major): full at the centre,
/// shrinking linearly with distance over a reach of one and a half cells.
pub open spec fn falloff3(o: int) -> i64 {
    let dist: int = if o == 4 {
        0
    } else if o == 1 || o == 3 || o == 5 || o == 7 {
        SCALE as int
    } else {
        DIAG_DIST as int
    };
    (SCALE - dist * SCALE / (REACH as int)) as i64
}

/// Dilated river value of cell `(x, y)` after considering the first `o`
/// 3x3 offsets: interior sources stronger than half strength spread sixty
/// percent of themselves, scaled by the falloff, and the cell keeps the
/// maximum it is offered.
pub open spec fn river_dilate_best(base: Seq<i64>, n: int, x: int, y: int, o: nat) -> i64
    decreases o,
{
    if o == 0 {
        at(base, n, x, y)
    } else {
        let prev = river_dilate_best(base, n, x, y, (o - 1) as nat);
        let oo = (o - 1) as int;
        let sx = x + (oo % 3 - 1);
        let sy = y + (oo / 3 - 1);
        if 1 <= sx < n - 1 && 1 <= sy < n - 1 && at(base, n, sx, sy) > HALF_SCALE {
            let e = fx_mul_spec(fx_mul_spec(at(base, n, sx, sy), SIX_TENTHS), falloff3(oo));
            if e > prev {
                e
            } else {
                prev
            }
        } else {
            prev
        }
    }
}

/// The full river mask grid: the base grid dilated.
pub open spec fn river_mask_grid(flow: Seq<u64>, n: int, t: i64) -> Seq<i64> {
    let base = river_base_grid(flow, t);
    Seq::new(flow.len(), |q: int| river_dilate_best(base, n, q % n, q / n, 9))
}

proof fn lemma_river_base_range(fv: u64, maxf: int, t: i64)
    requires
        10 <= t < SCALE,
        0 < maxf,
        fv as int <= maxf,
    ensures
        0 <= river_base_spec(fv, maxf, t) <= SCALE,
{
    let nf = (fv as int) * SCALE / maxf;
    assert(0 <= nf <= SCALE) by {
        assert((fv as int) * SCALE <= maxf * SCALE && 0 <= (fv as int) * SCALE) by (
        nonlinear_arith)
            requires
                0 <= fv as int <= maxf,
                SCALE as int > 0,
        ;
        vstd::arithmetic::div_mod::lemma_div_is_ordered((fv as int) * SCALE, maxf * SCALE, maxf);
        assert(maxf * SCALE == maxf * (SCALE as int));
        vstd::arithmetic::div_mod::lemma_div_multiples_vanish(SCALE as int, maxf);
        vstd::arithmetic::div_mod::lemma_div_pos_is_pos((fv as int) * SCALE, maxf);
    }
    let t3 = fx_mul_spec(t, 300_000);
    let t7 = fx_mul_spec(t, 700_000);
    if nf > t {
        vstd::arithmetic::div_mod::lemma_div_pos_is_pos((nf - t) * SCALE, SCALE - t);
        assert((nf - t) * SCALE >= 0) by (nonlinear_arith)
            requires
                nf > t,
        ;
    } else if nf > t3 {
        assert(0 <= t3 && 0 <= t7 <= SCALE) by {
            vstd::arithmetic::div_mod::lemma_div_pos_is_pos((t as int) * 300_000, SCALE as int);
            vstd::arithmetic::div_mod::lemma_div_pos_is_pos((t as int) * 700_000, SCALE as int);
            assert(0 <= (t as int) * 300_000 && 0 <= (t as int) * 700_000 && (t as int) * 700_000
                <= (SCALE as int) * (SCALE as int)) by (nonlinear_arith)
                requires
                    0 < t < SCALE,
            ;
            vstd::arithmetic::div_mod::lemma_div_is_ordered(
                (t as int) * 700_000,
                (SCALE as int) * (SCALE as int),
                SCALE as int,
            );
            vstd::arithmetic::div_mod::lemma_div_multiples_vanish(SCALE as int, SCALE as int);
        }
        let bank = (nf - t3) * SCALE / (t7 as int);
        vstd::arithmetic::div_mod::lemma_div_pos_is_pos((nf - t3) * SCALE, t7 as int);
        assert((nf - t3) * SCALE >= 0) by (nonlinear_arith)
            requires
                nf > t3,
        ;
        let cb = clamp_spec(bank);
        assert(0 <= cb);
        assert(0 <= (cb as int) * 300_000 <= 0x4000_0000_0000_0000 * 300_000) by (nonlinear_arith)
            requires
                0 <= cb as int <= 0x4000_0000_0000_0000,
        ;
        vstd::arithmetic::div_mod::lemma_div_pos_is_pos((cb as int) * 300_000, SCALE as int);
        crate::fixed::lemma_div_trunc_bound(
            (cb as int) * 300_000,
            SCALE as int,
            0x4000_0000_0000_0000,
        );
        assert(nf - t3 <= (t7 as int) + 2) by {
            vstd::arithmetic::div_mod::lemma_fundamental_div_mod((t as int) * 300_000, SCALE as int);
            vstd::arithmetic::div_mod::lemma_fundamental_div_mod((t as int) * 700_000, SCALE as int);
            vstd::arithmetic::div_mod::lemma_mod_division_less_than_divisor(
                (t as int) * 300_000,
                SCALE as int,
            );
            vstd::arithmetic::div_mod::lemma_mod_division_less_than_divisor(
                (t as int) * 700_000,
                SCALE as int,
            );
            assert((t as int) * 300_000 + (t as int) * 700_000 == (t as int) * SCALE) by (
            nonlinear_arith)
                requires
                    SCALE == 1_000_000,
            ;
            assert((t3 as int) * (SCALE as int) + (t7 as int) * (SCALE as int) > (t as int) * SCALE
                - 2 * SCALE) by (nonlinear_arith)
                requires
                    (t as int) * 300_000 - SCALE < (t3 as int) * (SCALE as int),
                    (t3 as int) * (SCALE as int) <= (t as int) * 300_000,
                    (t as int) * 700_000 - SCALE < (t7 as int) * (SCALE as int),
                    (t7 as int) * (SCALE as int) <= (t as int) * 700_000,
                    (t as int) * 300_000 + (t as int) * 700_000 == (t as int) * SCALE,
            ;
            assert(t3 + t7 > t - 2) by (nonlinear_arith)
                requires
                    (t3 as int) * (SCALE as int) + (t7 as int) * (SCALE as int) > (t as int) * SCALE
                        - 2 * SCALE,
                    SCALE as int > 0,
            ;
        }
        assert(t7 as int >= 7) by {
            assert(7_000_000 <= (t as int) * 700_000) by (nonlinear_arith)
                requires
                    t as int >= 10,
            ;
            vstd::arithmetic::div_mod::lemma_div_is_ordered(
                7_000_000,
                (t as int) * 700_000,
                SCALE as int,
            );
        }
        assert(bank <= 3 * SCALE) by {
            assert((nf - t3) * SCALE <= ((t7 as int) + 2) * SCALE) by (nonlinear_arith)
                requires
                    nf - t3 <= (t7 as int) + 2,
                    SCALE as int > 0,
            ;
            vstd::arithmetic::div_mod::lemma_div_is_ordered(
                (nf - t3) * SCALE,
                ((t7 as int) + 2) * SCALE,
                t7 as int,
            );
            assert(((t7 as int) + 2) * SCALE <= (3 * (SCALE as int)) * (t7 as int)) by (
            nonlinear_arith)
                requires
                    t7 as int >= 1,
                    SCALE == 1_000_000,
            ;
            vstd::arithmetic::div_mod::lemma_div_is_ordered(
                ((t7 as int) + 2) * SCALE,
                (3 * (SCALE as int)) * (t7 as int),
                t7 as int,
            );
            vstd::arithmetic::div_mod::lemma_div_by_multiple(3 * (SCALE as int), t7 as int);
        }
        assert(cb as int <= 3 * SCALE);
        assert(fx_mul_spec(cb, 300_000) <= SCALE) by {
            assert((cb as int) * 300_000 <= (SCALE as int) * (SCALE as int)) by (nonlinear_arith)
                requires
                    0 <= cb as int <= 3_000_000,
                    SCALE == 1_000_000,
            ;
            vstd::arithmetic::div_mod::lemma_div_is_ordered(
                (cb as int) * 300_000,
                (SCALE as int) * (SCALE as int),
                SCALE as int,
            );
            vstd::arithmetic::div_mod::lemma_div_multiples_vanish(SCALE as int, SCALE as int);
        }
    }
}

/// Every cell of the river mask lies in `[0, SCALE]`.
pub proof fn lemma_river_mask_range(flow: Seq<u64>, n: int, t: i64)
    requires
        10 <= t < SCALE,
        flow.len() == n * n,
        n >= 1,
    ensures
        forall|q: int|
            0 <= q < flow.len() ==> 0 <= #[trigger] river_mask_grid(flow, n, t)[q] <= SCALE,
{
    let base = river_base_grid(flow, t);
    lemma_flow_max_props(flow);
    assert forall|q: int| 0 <= q < flow.len() implies 0 <= #[trigger] base[q] <= SCALE by {
        if flow_max(flow) != 0 {
            lemma_river_base_range(flow[q], flow_max(flow), t);
        }
    }
    assert forall|q: int|
        0 <= q < flow.len() implies 0 <= #[trigger] river_mask_grid(flow, n, t)[q] <= SCALE by {
        let x = q % n;
        let y = q / n;
        vstd::arithmetic::div_mod::lemma_fundamental_div_mod(q, n);
        assert(0 <= x < n && 0 <= y < n && y * n + x == q) by (nonlinear_arith)
            requires
                0 <= q < n * n,
                0 < n,
                n * (q / n) + q % n == q,
                0 <= q % n < n,
                x == q % n,
                y == q / n,
        ;
        lemma_river_dilate_range(base, n, x, y, 9);
    }
}

proof fn lemma_river_dilate_range(base: Seq<i64>, n: int, x: int, y: int, o: nat)
    requires
        base.len() == n * n,
        n >= 1,
        0 <= x < n,
        0 <= y < n,
        forall|q: int| 0 <= q < base.len() ==> 0 <= #[trigger] base[q] <= SCALE,
    ensures
        0 <= river_dilate_best(base, n, x, y, o) <= SCALE,
    decreases o,
{
    if o == 0 {
        assert(0 <= y * n + x < n * n) by (nonlinear_arith)
            requires
                0 <= x < n,
                0 <= y < n,
        ;
    } else {
        lemma_river_dilate_range(base, n, x, y, (o - 1) as nat);
        let oo = (o - 1) as int;
        let sx = x + (oo % 3 - 1);
        let sy = y + (oo / 3 - 1);
        if 1 <= sx < n - 1 && 1 <= sy < n - 1 && at(base, n, sx, sy) > HALF_SCALE {
            assert(0 <= sy * n + sx < n * n) by (nonlinear_arith)
                requires
                    0 <= sx < n,
                    0 <= sy < n,
            ;
            let b = at(base, n, sx, sy);
            let e1 = fx_mul_spec(b, SIX_TENTHS);
            assert(0 <= e1 <= SCALE) by {
                assert(0 <= (b as int) * 600_000 <= (SCALE as int) * (SCALE as int)) by (
                nonlinear_arith)
                    requires
                        0 <= b as int <= SCALE as int,
                        SCALE == 1_000_000,
                ;
                vstd::arithmetic::div_mod::lemma_div_is_ordered(
                    (b as int) * 600_000,
                    (SCALE as int) * (SCALE as int),
                    SCALE as int,
                );
                vstd::arithmetic::div_mod::lemma_div_multiples_vanish(SCALE as int, SCALE as int);
                vstd::arithmetic::div_mod::lemma_div_pos_is_pos((b as int) * 600_000, SCALE as int);
            }
            let e = fx_mul_spec(e1, falloff3(oo));
            assert(0 <= falloff3(oo) <= SCALE);
            assert(0 <= e <= SCALE) by {
                assert(0 <= (e1 as int) * (falloff3(oo) as int) <= (SCALE as int) * (
                SCALE as int)) by (nonlinear_arith)
                    requires
                        0 <= e1 as int <= SCALE as int,
                        0 <= falloff3(oo) as int <= SCALE as int,
                ;
                vstd::arithmetic::div_mod::lemma_div_is_ordered(
                    (e1 as int) * (falloff3(oo) as int),
                    (SCALE as int) * (SCALE as int),
                    SCALE as int,
                );
                vstd::arithmetic::div_mod::lemma_div_multiples_vanish(SCALE as int, SCALE as int);
                vstd::arithmetic::div_mod::lemma_div_pos_is_pos(
                    (e1 as int) * (falloff3(oo) as int),
                    SCALE as int,
                );
            }
        }
    }
}

proof fn lemma_threshold_bands(t: i64)
    requires
        10 <= t < SCALE,
    ensures
        3 <= fx_mul_spec(t, 300_000) < SCALE,
        7 <= fx_mul_spec(t, 700_000) < SCALE,
{
    assert(3_000_000 <= (t as int) * 300_000 && (t as int) * 300_000 < (SCALE as int) * 300_000
        && 7_000_000 <= (t as int) * 700_000 && (t as int) * 700_000 < (SCALE as int) * 700_000)
        by (nonlinear_arith)
        requires
            10 <= t as int,
            (t as int) < SCALE as int,
            SCALE == 1_000_000,
    ;
    vstd::arithmetic::div_mod::lemma_div_is_ordered(3_000_000, (t as int) * 300_000, SCALE as int);
    vstd::arithmetic::div_mod::lemma_div_is_ordered(7_000_000, (t as int) * 700_000, SCALE as int);
    vstd::arithmetic::div_mod::lemma_div_is_ordered(
        (t as int) * 300_000,
        1_000_000_000_000,
        SCALE as int,
    );
    vstd::arithmetic::div_mod::lemma_div_is_ordered(
        (t as int) * 700_000,
        1_000_000_000_000,
        SCALE as int,
    );
}

/// Dilation falloff of the 3x3 offset `o`, as an executable value.
fn falloff3_ex(o: usize) -> (r: i64)
    requires
        o < 9,
    ensures
        r == falloff3(o as int),
        0 <= r <= SCALE,
{
    if o == 4 {
        proof {
            assert(falloff3(4) == (SCALE - 0 * SCALE / (REACH as int)) as i64);
            vstd::arithmetic::div_mod::lemma_div_of0(REACH as int);
            assert(0 * (SCALE as int) == 0) by (nonlinear_arith);
        }
        SCALE
    } else if o == 1 || o == 3 || o == 5 || o == 7 {
        proof {
            assert((SCALE as int) * SCALE == 1_000_000_000_000) by (nonlinear_arith);
            vstd::arithmetic::div_mod::lemma_fundamental_div_mod_converse(
                1_000_000_000_000,
                1_500_000,
                666_666,
                1_000_000,
            );
        }
        333_334
    } else {
        proof {
            assert((DIAG_DIST as int) * SCALE == 1_414_213_000_000) by (nonlinear_arith);
            vstd::arithmetic::div_mod::lemma_fundamental_div_mod_converse(
                1_414_213_000_000,
                1_500_000,
                942_808,
                1_000_000,
            );
        }
        57_192
    }
}

/// Base river strength of one cell.
fn river_base_cell(fv: u64, maxf: u64, t: i64) -> (r: i64)
    requires
        maxf > 0,
        fv <= maxf,
        10 <= t < SCALE,
    ensures
        r == river_base_spec(fv, maxf as int, t),
        0 <= r <= SCALE,
{
    proof {
        lemma_river_base_range(fv, maxf as int, t);
        lemma_threshold_bands(t);
        assert((fv as int) * (SCALE as int) <= (maxf as int) * (SCALE as int)) by (nonlinear_arith)
            requires
                fv <= maxf,
                SCALE as int > 0,
        ;
        vstd::arithmetic::div_mod::lemma_div_is_ordered(
            (fv as int) * SCALE,
            (maxf as int) * SCALE,
            maxf as int,
        );
        vstd::arithmetic::div_mod::lemma_div_multiples_vanish(SCALE as int, maxf as int);
        vstd::arithmetic::div_mod::lemma_div_pos_is_pos((fv as int) * SCALE, maxf as int);
    }
    let nf: u64 = (((fv as u128) * (SCALE as u128)) / (maxf as u128)) as u64;
    let t3 = crate::fixed::fx_mul(t, 300_000);
    let t7 = crate::fixed::fx_mul(t, 700_000);
    if nf > t as u64 {
        let v: u128 = (((nf - t as u64) as u128) * (SCALE as u128)) / ((SCALE - t) as u128);
        if v > SCALE as u128 {
            SCALE
        } else {
            v as i64
        }
    } else if nf > t3 as u64 {
        let bank: u128 = (((nf - t3 as u64) as u128) * (SCALE as u128)) / (t7 as u128);
        proof {
            assert(bank as int == ((nf as int) - t3) * SCALE / (t7 as int));
            assert(bank <= 0x4000_0000_0000_0000u128) by {
                assert(((nf as int) - t3) * SCALE <= (SCALE as int) * SCALE) by (nonlinear_arith)
                    requires
                        0 <= (nf as int) - t3 <= SCALE as int,
                ;
                vstd::arithmetic::div_mod::lemma_div_is_ordered(
                    ((nf as int) - t3) * SCALE,
                    (SCALE as int) * SCALE,
                    t7 as int,
                );
                assert((SCALE as int) * SCALE / (t7 as int) <= (SCALE as int) * SCALE) by {
                    vstd::arithmetic::div_mod::lemma_div_nonincreasing(
                        (SCALE as int) * SCALE,
                        t7 as int,
                    );
                    assert((SCALE as int) * SCALE >= 0) by (nonlinear_arith);
                }
            }
        }
        let cb: i64 = bank as i64;
        proof {
            assert(cb == clamp_spec(bank as int));
        }
        crate::fixed::fx_mul(cb, 300_000)
    } else {
        0
    }
}

/// The greatest flow value in the field.
pub(crate) fn flow_max_ex(flow: &Vec<u64>) -> (r: u64)
    ensures
        r as int == flow_max(flow@),
        forall|i: int| 0 <= i < flow@.len() ==> #[trigger] flow@[i] <= r,
{
    let len = flow.len();
    let mut mx: u64 = 0;
    let mut i: usize = 0;
    proof {
        assert(flow@.subrange(0, 0) =~= Seq::<u64>::empty());
    }
    while i < len
        invariant
            i <= len,
            len == flow@.len(),
            mx as int == flow_max(flow@.subrange(0, i as int)),
            forall|q: int| 0 <= q < i ==> #[trigger] flow@[q] <= mx,
        decreases len - i,
    {
        let v = flow[i];
        proof {
            let pre = flow@.subrange(0, i as int);
            let ext = flow@.subrange(0, i as int + 1);
            assert(ext.drop_last() =~= pre);
            assert(ext.last() == v);
            if i == 0 {
                assert(flow_max(pre) == 0);
            }
        }
        if v > mx {
            mx = v;
        }
        i = i + 1;
    }
    proof {
        assert(flow@.subrange(0, len as int) =~= flow@);
    }
    mx
}

/// River mask of the grid: normalized flow thresholded into full-strength
/// rivers and weaker banks, then dilated so every strong interior river
/// cell widens into its neighbourhood with linear falloff. Every cell of
/// the result lies in `[0, SCALE]`.
pub fn generate_river_mask(field: &HeightField, flow: &Vec<u64>, threshold: i64) -> (r: Vec<i64>)
    requires
        field.wf(),
        flow@.len() == field@.len(),
        10 <= threshold < SCALE,
    ensures
        r@ == river_mask_grid(flow@, field.spec_size(), threshold),
        r@.len() == flow@.len(),
        forall|i: int| 0 <= i < r@.len() ==> 0 <= #[trigger] r@[i] <= SCALE,
{
    let n = field.size();
    proof {
        assert(n * n <= 0xFFFF_FFFFusize) by (nonlinear_arith)
            requires
                n <= 65535,
        ;
    }
    let len: usize = n * n;
    let maxf = flow_max_ex(flow);
    let mut base: Vec<i64> = Vec::new();
    let mut k: usize = 0;
    while k < len
        invariant
            k <= len,
            len == n * n,
            n <= MAX_SIZE,
            flow@.len() == len,
            10 <= threshold < SCALE,
            maxf as int == flow_max(flow@),
            forall|q: int| 0 <= q < len ==> #[trigger] flow@[q] <= maxf,
            base@.len() == k,
            forall|q: int|
                0 <= q < k ==> #[trigger] base@[q] == river_base_grid(flow@, threshold)[q] && 0
                    <= base@[q] <= SCALE,
        decreases len - k,
    {
        let cell: i64 = if maxf == 0 {
            0
        } else {
            river_base_cell(flow[k], maxf, threshold)
        };
        base.push(cell);
        k = k + 1;
    }
    let mut out: Vec<i64> = Vec::new();
    let mut k2: usize = 0;
    proof {
        if n == 0 {
            assert(len == 0) by (nonlinear_arith)
                requires
                    len == n * n,
                    n == 0,
            ;
        }
    }
    while k2 < len
        invariant
            k2 <= len,
            len == n * n,
            1 <= n <= MAX_SIZE || len == 0,
            flow@.len() == len,
            10 <= threshold < SCALE,
            base@.len() == len,
            base@ == river_base_grid(flow@, threshold),
            forall|q: int| 0 <= q < len ==> 0 <= #[trigger] base@[q] <= SCALE,
            out@.len() == k2,
            forall|q: int|
                0 <= q < k2 ==> #[trigger] out@[q] == river_dilate_best(
                    base@,
                    n as int,
                    q % (n as int),
                    q / (n as int),
                    9,
                ) && 0 <= out@[q] <= SCALE,
        decreases len - k2,
    {
        let x: usize = k2 % n;
        let y: usize = k2 / n;
        proof {
            vstd::arithmetic::div_mod::lemma_fundamental_div_mod(k2 as int, n as int);
            assert((k2 as int) / (n as int) < n) by (nonlinear_arith)
                requires
                    (k2 as int) < (n as int) * (n as int),
                    0 < n as int,
                    (n as int) * ((k2 as int) / (n as int)) + (k2 as int) % (n as int)
                        == k2 as int,
                    0 <= (k2 as int) % (n as int) < n as int,
            ;
            assert((y as int) * (n as int) + (x as int) == k2 as int) by (nonlinear_arith)
                requires
                    (n as int) * ((k2 as int) / (n as int)) + (k2 as int) % (n as int)
                        == k2 as int,
                    y as int == (k2 as int) / (n as int),
                    x as int == (k2 as int) % (n as int),
            ;
        }
        let mut best: i64 = base[k2];
        let mut o: usize = 0;
        while o < 9
            invariant
                o <= 9,
                x < n,
                y < n,
                len == n * n,
                1 <= n <= MAX_SIZE,
                base@.len() == len,
                forall|q: int| 0 <= q < len ==> 0 <= #[trigger] base@[q] <= SCALE,
                best == river_dilate_best(base@, n as int, x as int, y as int, o as nat),
                0 <= best <= SCALE,
            decreases 9 - o,
        {
            proof {
                lemma_river_dilate_range(base@, n as int, x as int, y as int, (o + 1) as nat);
            }
            let ox: i64 = (o as i64) % 3 - 1;
            let oy: i64 = (o as i64) / 3 - 1;
            let sx: i64 = (x as i64) + ox;
            let sy: i64 = (y as i64) + oy;
            if 1 <= sx && sx < (n as i64) - 1 && 1 <= sy && sy < (n as i64) - 1 {
                proof {
                    assert((sy as int) * (n as int) + (sx as int) < n * n && 0 <= (sy as int) * (
                    n as int) + (sx as int)) by (nonlinear_arith)
                        requires
                            0 <= (sx as int) < (n as int),
                            0 <= (sy as int) < (n as int),
                    ;
                }
                let b = base[(sy as usize) * n + (sx as usize)];
                proof {
                    assert(b == at(base@, n as int, sx as int, sy as int));
                }
                if b > HALF_SCALE {
                    let e = crate::fixed::fx_mul(crate::fixed::fx_mul(b, SIX_TENTHS), falloff3_ex(o));
                    if e > best {
                        best = e;
                    }
                }
            }
            o = o + 1;
        }
        out.push(best);
        k2 = k2 + 1;
    }
    proof {
        assert(out@ =~= river_mask_grid(flow@, n as int, threshold));
    }
    out
}

/// Distance between two cells offset by `(dx, dy)`, in scalar units.
pub open spec fn dist2_fx(dx: int, dy: int) -> int {
    crate::fixed::sqrt_floor((dx * dx + dy * dy) * ((SCALE as int) * (SCALE as int)))
}

/// Beach search window radius in cells: the beach width rounded up.
pub open spec fn beach_window(bw: i64) -> int {
    ((bw as int) + SCALE - 1) / (SCALE as int)
}

/// Result of the beach search from offset index `w*w - rem` on: the value
/// of the first in-bounds wet cell within the beach width, in the fixed
/// row-major scan order, with linear falloff by distance; 0 when none.
pub open spec fn beach_scan(
    s: Seq<i64>,
    n: int,
    x: int,
    y: int,
    sea: i64,
    bp: int,
    bw: i64,
    rem: nat,
) -> i64
    decreases rem,
{
    if rem == 0 {
        0i64
    } else {
        let w = 2 * bp + 1;
        let k = w * w - rem;
        let dy = k / w - bp;
        let dx = k % w - bp;
        let nx = x + dx;
        let ny = y + dy;
        if 0 <= nx < n && 0 <= ny < n && (at(s, n, nx, ny) as int) <= sea && dist2_fx(dx, dy)
            <= bw {
            let v = SCALE - dist2_fx(dx, dy) * SCALE / (bw as int);
            if v < 0 {
                0i64
            } else {
                v as i64
            }
        } else {
            beach_scan(s, n, x, y, sea, bp, bw, (rem - 1) as nat)
        }
    }
}

/// Beach strength of one cell: wet cells are full strength; dry cells take
/// the falloff of the first wet cell their window scan finds.
pub open spec fn beach_cell_spec(s: Seq<i64>, n: int, x: int, y: int, sea: i64, bw: i64) -> i64 {
    if (at(s, n, x, y) as int) <= sea {
        SCALE
    } else {
        let bp = beach_window(bw);
        beach_scan(s, n, x, y, sea, bp, bw, ((2 * bp + 1) * (2 * bp + 1)) as nat)
    }
}

/// The whole beach mask.
pub open spec fn beach_grid(s: Seq<i64>, n: int, sea: i64, bw: i64) -> Seq<i64> {
    Seq::new(s.len(), |q: int| beach_cell_spec(s, n, q % n, q / n, sea, bw))
}

proof fn lemma_beach_scan_range(
    s: Seq<i64>,
    n: int,
    x: int,
    y: int,
    sea: i64,
    bp: int,
    bw: i64,
    rem: nat,
)
    requires
        bw >= 1,
    ensures
        0 <= beach_scan(s, n, x, y, sea, bp, bw, rem) <= SCALE,
    decreases rem,
{
    if rem > 0 {
        lemma_beach_scan_range(s, n, x, y, sea, bp, bw, (rem - 1) as nat);
        let w = 2 * bp + 1;
        let k = w * w - rem;
        let dy = k / w - bp;
        let dx = k % w - bp;
        assert((dx * dx + dy * dy) * ((SCALE as int) * (SCALE as int)) >= 0) by (nonlinear_arith);
        crate::fixed::lemma_sqrt_floor_props(
            (dx * dx + dy * dy) * ((SCALE as int) * (SCALE as int)),
        );
        let dist = dist2_fx(dx, dy);
        assert(dist * SCALE >= 0) by (nonlinear_arith)
            requires
                dist >= 0,
        ;
        vstd::arithmetic::div_mod::lemma_div_pos_is_pos(dist * SCALE, bw as int);
    }
}

/// One cell of the beach mask.
fn beach_cell(s: &Vec<i64>, n: usize, x: usize, y: usize, sea: i64, bw: i64) -> (r: i64)
    requires
        valid_grid(s@, n as int),
        1 <= n <= MAX_SIZE,
        x < n,
        y < n,
        1 <= bw <= crate::filters::MAX_RADIUS,
    ensures
        r == beach_cell_spec(s@, n as int, x as int, y as int, sea, bw),
        0 <= r <= SCALE,
{
    proof {
        assert(y * n + x < n * n && n * n <= 0xFFFF_FFFFusize) by (nonlinear_arith)
            requires
                x < n,
                y < n,
                n <= 65535,
        ;
        lemma_beach_scan_range(
            s@,
            n as int,
            x as int,
            y as int,
            sea,
            beach_window(bw),
            bw,
            ((2 * beach_window(bw) + 1) * (2 * beach_window(bw) + 1)) as nat,
        );
    }
    let h = s[y * n + x];
    if h <= sea {
        return SCALE;
    }
    let bp: u64 = (((bw as u128) + (SCALE as u128) - 1) / (SCALE as u128)) as u64;
    proof {
        assert(bp as int == beach_window(bw));
        vstd::arithmetic::div_mod::lemma_div_is_ordered(
            (bw as int) + SCALE - 1,
            1_000_000_999_999,
            SCALE as int,
        );
        vstd::arithmetic::div_mod::lemma_div_pos_is_pos((bw as int) + SCALE - 1, SCALE as int);
        assert(1_000_000_999_999int / 1_000_000int == 1_000_000) by {
            vstd::arithmetic::div_mod::lemma_fundamental_div_mod_converse(
                1_000_000_999_999,
                1_000_000,
                1_000_000,
                999_999,
            );
        }
    }
    let w: u64 = 2 * bp + 1;
    proof {
        assert(w * w <= 2_000_001u64 * 2_000_001u64) by (nonlinear_arith)
            requires
                w <= 2_000_001u64,
        ;
    }
    let total: u64 = w * w;
    let mut k: u64 = 0;
    while k < total
        invariant
            k <= total,
            total == w * w,
            w == 2 * bp + 1,
            0 <= bp <= 1_000_000,
            bp as int == beach_window(bw),
            1 <= bw <= crate::filters::MAX_RADIUS,
            valid_grid(s@, n as int),
            1 <= n <= MAX_SIZE,
            x < n,
            y < n,
            (at(s@, n as int, x as int, y as int) as int) > sea,
            beach_scan(s@, n as int, x as int, y as int, sea, bp as int, bw, (total) as nat)
                == beach_scan(
                s@,
                n as int,
                x as int,
                y as int,
                sea,
                bp as int,
                bw,
                (total - k) as nat,
            ),
        decreases total - k,
    {
        proof {
            vstd::arithmetic::div_mod::lemma_fundamental_div_mod(k as int, w as int);
            assert((k as int) / (w as int) < w) by (nonlinear_arith)
                requires
                    (k as int) < (w as int) * (w as int),
                    0 < w as int,
                    (w as int) * ((k as int) / (w as int)) + (k as int) % (w as int) == k as int,
                    0 <= (k as int) % (w as int) < w as int,
            ;
        }
        let dy: i64 = ((k / w) as i64) - (bp as i64);
        let dx: i64 = ((k % w) as i64) - (bp as i64);
        let nxs: i64 = (x as i64) + dx;
        let nys: i64 = (y as i64) + dy;
        if 0 <= nxs && nxs < n as i64 && 0 <= nys && nys < n as i64 {
            let nx = nxs as usize;
            let ny = nys as usize;
            proof {
                assert(ny * n + nx < n * n && n * n <= 0xFFFF_FFFFusize) by (nonlinear_arith)
                    requires
                        nx < n,
                        ny < n,
                        n <= 65535,
                ;
            }
            let hn = s[ny * n + nx];
            if hn <= sea {
                proof {
                    assert(0 <= (dx as int) * (dx as int) + (dy as int) * (dy as int)
                        && (dx as int) * (dx as int) + (dy as int) * (dy as int) <= 2_000_001
                        * 2_000_001 * 2) by (nonlinear_arith)
                        requires
                            iabs(dx as int) <= 2_000_001,
                            iabs(dy as int) <= 2_000_001,
                    ;
                    assert(0 <= (dx as i128) * (dx as i128) && (dx as i128) * (dx as i128)
                        <= 2_000_001 * 2_000_001 && 0 <= (dy as i128) * (dy as i128) && (
                    dy as i128) * (dy as i128) <= 2_000_001 * 2_000_001) by (nonlinear_arith)
                        requires
                            iabs(dx as i128 as int) <= 2_000_001,
                            iabs(dy as i128 as int) <= 2_000_001,
                    ;
                    assert(((dx as int) * (dx as int) + (dy as int) * (dy as int)) * ((
                    SCALE as int) * (SCALE as int)) <= 2_000_001 * 2_000_001 * 2 * (1_000_000
                        * 1_000_000) && ((dx as int) * (dx as int) + (dy as int) * (dy as int)) * ((
                    SCALE as int) * (SCALE as int)) >= 0) by (nonlinear_arith)
                        requires
                            0 <= (dx as int) * (dx as int) + (dy as int) * (dy as int) <= 2_000_001
                                * 2_000_001 * 2,
                            SCALE == 1_000_000,
                    ;
                }
                let d2: u128 = (((dx as i128) * (dx as i128) + (dy as i128) * (dy as i128))
                    as u128) * ((SCALE as u128) * (SCALE as u128));
                let dist: u64 = crate::fixed::isqrt(d2);
                proof {
                    crate::fixed::lemma_sqrt_floor_unique(d2 as int, dist as int);
                }
                if (dist as i128) <= (bw as i128) {
                    proof {
                        vstd::arithmetic::div_mod::lemma_div_is_ordered(
                            (dist as int) * SCALE,
                            (bw as int) * SCALE,
                            bw as int,
                        );
                        assert((dist as int) * SCALE <= (bw as int) * SCALE && 0 <= (dist as int)
                            * SCALE) by (nonlinear_arith)
                            requires
                                0 <= dist as int <= bw as int,
                                SCALE as int > 0,
                        ;
                        assert((bw as int) * SCALE == (SCALE as int) * (bw as int)) by (
                        nonlinear_arith);
                        vstd::arithmetic::div_mod::lemma_div_by_multiple(SCALE as int, bw as int);
                        vstd::arithmetic::div_mod::lemma_div_pos_is_pos(
                            (dist as int) * SCALE,
                            bw as int,
                        );
                    }
                    let q: u128 = ((dist as u128) * (SCALE as u128)) / (bw as u128);
                    let v: i64 = SCALE - (q as i64);
                    return if v < 0 {
                        0
                    } else {
                        v
                    };
                }
            }
        }
        k = k + 1;
    }
    0
}

/// Beach mask of the grid: wet cells at full strength, dry cells fading
/// linearly with their scanned distance to water. Every cell of the result
/// lies in `[0, SCALE]`.
pub fn generate_beach_mask(field: &HeightField, sea_level: i64, beach_width: i64) -> (r: Vec<i64>)
    requires
        field.wf(),
        field.spec_size() >= 1,
        1 <= beach_width <= crate::filters::MAX_RADIUS,
    ensures
        r@ == beach_grid(field@, field.spec_size(), sea_level, beach_width),
        r@.len() == field@.len(),
        forall|i: int| 0 <= i < r@.len() ==> 0 <= #[trigger] r@[i] <= SCALE,
{
    let n = field.size();
    let s = field.cells();
    proof {
        assert(1 <= n * n <= 0xFFFF_FFFFusize) by (nonlinear_arith)
            requires
                1 <= n <= 65535,
        ;
    }
    let len: usize = n * n;
    let mut out: Vec<i64> = Vec::new();
    let mut k: usize = 0;
    while k < len
        invariant
            k <= len,
            len == n * n,
            1 <= n <= MAX_SIZE,
            valid_grid(s@, n as int),
            s@ == field@,
            1 <= beach_width <= crate::filters::MAX_RADIUS,
            out@.len() == k,
            forall|q: int|
                0 <= q < k ==> #[trigger] out@[q] == beach_cell_spec(
                    s@,
                    n as int,
                    q % (n as int),
                    q / (n as int),
                    sea_level,
                    beach_width,
                ) && 0 <= out@[q] <= SCALE,
        decreases len - k,
    {
        let x: usize = k % n;
        let y: usize = k / n;
        proof {
            vstd::arithmetic::div_mod::lemma_fundamental_div_mod(k as int, n as int);
            assert((k as int) / (n as int) < n) by (nonlinear_arith)
                requires
                    (k as int) < (n as int) * (n as int),
                    0 < n as int,
                    (n as int) * ((k as int) / (n as int)) + (k as int) % (n as int) == k as int,
                    0 <= (k as int) % (n as int) < n as int,
            ;
        }
        let cell = beach_cell(s, n, x, y, sea_level, beach_width);
        out.push(cell);
        k = k + 1;
    }
    proof {
        assert(out@ =~= beach_grid(field@, n as int, sea_level, beach_width));
    }
    out
}

/// Sum of absolute height differences toward the first `d` clamped
/// neighbours in scan order.
pub open spec fn nb_abs_sum(s: Seq<i64>, n: int, x: int, y: int, d: nat) -> int
    decreases d,
{
    if d == 0 {
        0
    } else {
        nb_abs_sum(s, n, x, y, (d - 1) as nat) + iabs(
            at(s, n, x, y) as int - crate::height_field::at_clamped(
                s,
                n,
                x + crate::filters::nb_dx((d - 1) as int),
                y + crate::filters::nb_dy((d - 1) as int),
            ) as int,
        )
    }
}

/// Terrain hardness of a cell: average local relief plus a height term,
/// capped at full strength.
pub open spec fn hardness_spec(s: Seq<i64>, n: int, x: int, y: int) -> int {
    let sl = nb_abs_sum(s, n, x, y, 8) / 8;
    let h = at(s, n, x, y) as int;
    let hf: int = if h + 300_000 < 0 {
        0
    } else {
        h + 300_000
    };
    let t = sl * 3 + div_trunc(hf * 400_000, SCALE as int);
    if t > SCALE {
        SCALE as int
    } else {
        t
    }
}

/// One cell after river carving: river cells lose a depth scaled by the
/// river strength and a hardness tier (hard rock carves canyons at double
/// depth, soft sediment shallow beds at forty percent), floored at zero.
pub open spec fn carve_cell_spec(s: Seq<i64>, n: int, x: int, y: int, mv: i64, depth: i64) -> i64 {
    if mv > 0 {
        let hd = hardness_spec(s, n, x, y);
        let cd = if hd > 700_000 {
            fx_mul_spec(depth, 2_000_000)
        } else if hd > 400_000 {
            fx_mul_spec(depth, 1_200_000)
        } else {
            fx_mul_spec(depth, 400_000)
        };
        let e = fx_mul_spec(fx_mul_spec(cd, mv), 700_000);
        let nv = at(s, n, x, y) as int - e;
        if nv < 0 {
            0i64
        } else {
            nv as i64
        }
    } else {
        at(s, n, x, y)
    }
}

/// The whole grid after carving.
pub open spec fn carve_grid(s: Seq<i64>, n: int, mask: Seq<i64>, depth: i64) -> Seq<i64> {
    Seq::new(s.len(), |q: int| carve_cell_spec(s, n, q % n, q / n, mask[q], depth))
}

/// Carve river channels into the grid along the river mask.
pub fn carve_rivers(field: &mut HeightField, river_mask: &Vec<i64>, depth: i64, _width: i64)
    requires
        old(field).wf(),
        old(field).spec_size() >= 1,
        river_mask@.len() == old(field)@.len(),
        forall|i: int| 0 <= i < river_mask@.len() ==> 0 <= #[trigger] river_mask@[i] <= SCALE,
        0 <= depth,
        fx_valid(depth),
    ensures
        final(field).wf(),
        final(field).spec_size() == old(field).spec_size(),
        final(field)@ == carve_grid(
            old(field)@,
            old(field).spec_size(),
            river_mask@,
            depth,
        ),
{
    let n = field.size();
    let src = field.get_data();
    proof {
        assert(1 <= n * n <= 0xFFFF_FFFFusize) by (nonlinear_arith)
            requires
                1 <= n <= 65535,
        ;
    }
    let len: usize = n * n;
    let mut out: Vec<i64> = Vec::new();
    let mut k: usize = 0;
    while k < len
        invariant
            k <= len,
            len == n * n,
            1 <= n <= MAX_SIZE,
            valid_grid(src@, n as int),
            river_mask@.len() == len,
            forall|i: int| 0 <= i < river_mask@.len() ==> 0 <= #[trigger] river_mask@[i] <= SCALE,
            0 <= depth,
            fx_valid(depth),
            out@.len() == k,
            forall|q: int|
                0 <= q < k ==> #[trigger] out@[q] == carve_cell_spec(
                    src@,
                    n as int,
                    q % (n as int),
                    q / (n as int),
                    river_mask@[q],
                    depth,
                ) && fx_valid(out@[q]),
        decreases len - k,
    {
        let x: usize = k % n;
        let y: usize = k / n;
        proof {
            vstd::arithmetic::div_mod::lemma_fundamental_div_mod(k as int, n as int);
            assert((k as int) / (n as int) < n) by (nonlinear_arith)
                requires
                    (k as int) < (n as int) * (n as int),
                    0 < n as int,
                    (n as int) * ((k as int) / (n as int)) + (k as int) % (n as int) == k as int,
                    0 <= (k as int) % (n as int) < n as int,
            ;
            assert((y as int) * (n as int) + (x as int) == k as int) by (nonlinear_arith)
                requires
                    (n as int) * ((k as int) / (n as int)) + (k as int) % (n as int) == k as int,
                    y as int == (k as int) / (n as int),
                    x as int == (k as int) % (n as int),
            ;
        }
        let h = src[k];
        let mv = river_mask[k];
        let cell: i64;
        if mv > 0 {
            let mut sl_sum: i128 = 0;
            let mut d: usize = 0;
            while d < 8
                invariant
                    d <= 8,
                    valid_grid(src@, n as int),
                    1 <= n <= MAX_SIZE,
                    x < n,
                    y < n,
                    h == at(src@, n as int, x as int, y as int),
                    fx_valid(h),
                    sl_sum == nb_abs_sum(src@, n as int, x as int, y as int, d as nat),
                    0 <= sl_sum <= (d as int) * 0x8000_0000_0000_0000,
                decreases 8 - d,
            {
                let (ddx, ddy) = crate::filters::nb_offset(d);
                let hn = crate::filters::grid_get_clamped(
                    &src,
                    n,
                    (x as i64) + ddx,
                    (y as i64) + ddy,
                );
                let diff: i128 = (h as i128) - (hn as i128);
                let ad: i128 = if diff < 0 {
                    -diff
                } else {
                    diff
                };
                sl_sum = sl_sum + ad;
                proof {
                    assert((d as int) * 0x8000_0000_0000_0000 + 0x8000_0000_0000_0000 == ((
                    d as int) + 1) * 0x8000_0000_0000_0000) by (nonlinear_arith);
                }
                d = d + 1;
            }
            let sl: i128 = (sl_sum as u128 / 8u128) as i128;
            proof {
                assert(sl == nb_abs_sum(src@, n as int, x as int, y as int, 8) / 8);
            }
            let hfv: i128 = if (h as i128) + 300_000 < 0 {
                0
            } else {
                (h as i128) + 300_000
            };
            let t40: i128 = crate::fixed::div_trunc_i128(hfv * 400_000, SCALE as i128);
            proof {
                vstd::arithmetic::div_mod::lemma_div_pos_is_pos(hfv as int * 400_000, SCALE as int);
                assert(hfv as int * 400_000 >= 0 && hfv as int * 400_000 <= 0x8000_0000_0000_0000
                    * 400_000) by (nonlinear_arith)
                    requires
                        0 <= hfv as int <= 0x8000_0000_0000_0000,
                ;
            }
            let traw: i128 = sl * 3 + t40;
            let hd: i128 = if traw > SCALE as i128 {
                SCALE as i128
            } else {
                traw
            };
            proof {
                assert(hd as int == hardness_spec(src@, n as int, x as int, y as int));
            }
            let cd: i64 = if hd > 700_000 {
                crate::fixed::fx_mul(depth, 2_000_000)
            } else if hd > 400_000 {
                crate::fixed::fx_mul(depth, 1_200_000)
            } else {
                crate::fixed::fx_mul(depth, 400_000)
            };
            let e = crate::fixed::fx_mul(crate::fixed::fx_mul(cd, mv), 700_000);
            let nv: i128 = (h as i128) - (e as i128);
            cell = if nv < 0 {
                0
            } else {
                nv as i64
            };
        } else {
            cell = h;
        }
        out.push(cell);
        k = k + 1;
    }
    proof {
        assert(valid_grid(out@, n as int));
        assert(out@ =~= carve_grid(old(field)@, n as int, river_mask@, depth));
    }
    field.replace_cells(out);
}

/// One cell after coastal erosion: beach cells lose the rate scaled by the
/// beach strength, but never drop below thirty percent of their own
/// pre-erosion value.
pub open spec fn coastal_cell_spec(h: i64, b: i64, rate: i64) -> i64 {
    if b > 0 {
        let e = fx_mul_spec(rate, b);
        let f30 = fx_mul_spec(h, 300_000);
        if h - e > f30 {
            (h - e) as i64
        } else {
            f30
        }
    } else {
        h
    }
}

/// The whole grid after coastal erosion.
pub open spec fn coastal_grid(s: Seq<i64>, beach: Seq<i64>, rate: i64) -> Seq<i64> {
    Seq::new(s.len(), |q: int| coastal_cell_spec(s[q], beach[q], rate))
}

/// Erode the coast along the beach mask. No cell with a non-negative
/// elevation ever drops below thirty percent of its pre-erosion value.
pub fn apply_coastal_erosion(field: &mut HeightField, beach_mask: &Vec<i64>, erosion_amount: i64)
    requires
        old(field).wf(),
        beach_mask@.len() == old(field)@.len(),
        forall|i: int| 0 <= i < beach_mask@.len() ==> 0 <= #[trigger] beach_mask@[i] <= SCALE,
        0 <= erosion_amount,
        fx_valid(erosion_amount),
    ensures
        final(field).wf(),
        final(field).spec_size() == old(field).spec_size(),
        final(field)@ == coastal_grid(old(field)@, beach_mask@, erosion_amount),
        forall|i: int|
            0 <= i < old(field)@.len() && old(field)@[i] >= 0 ==> #[trigger] final(field)@[i]
                >= fx_mul_spec(old(field)@[i], 300_000),
{
    let n = field.size();
    let src = field.get_data();
    let len = src.len();
    let mut out: Vec<i64> = Vec::new();
    let mut k: usize = 0;
    while k < len
        invariant
            k <= len,
            valid_grid(src@, field.spec_size()),
            src@ == field@,
            len == src@.len(),
            beach_mask@.len() == len,
            forall|i: int| 0 <= i < beach_mask@.len() ==> 0 <= #[trigger] beach_mask@[i] <= SCALE,
            0 <= erosion_amount,
            fx_valid(erosion_amount),
            out@.len() == k,
            forall|q: int|
                0 <= q < k ==> #[trigger] out@[q] == coastal_cell_spec(
                    src@[q],
                    beach_mask@[q],
                    erosion_amount,
                ) && fx_valid(out@[q]),
            forall|q: int|
                0 <= q < k && src@[q] >= 0 ==> #[trigger] out@[q] >= fx_mul_spec(
                    src@[q],
                    300_000,
                ),
        decreases len - k,
    {
        let h = src[k];
        let b = beach_mask[k];
        let cell: i64;
        if b > 0 {
            let e = crate::fixed::fx_mul(erosion_amount, b);
            proof {
                assert(e >= 0) by {
                    assert((erosion_amount as int) * (b as int) >= 0) by (nonlinear_arith)
                        requires
                            erosion_amount >= 0,
                            b >= 0,
                    ;
                    vstd::arithmetic::div_mod::lemma_div_pos_is_pos(
                        (erosion_amount as int) * (b as int),
                        SCALE as int,
                    );
                }
            }
            let f30 = crate::fixed::fx_mul(h, 300_000);
            let nv: i128 = (h as i128) - (e as i128);
            proof {
                crate::fixed::lemma_div_trunc_bound(
                    (h as int) * 300_000,
                    SCALE as int,
                    0x4000_0000_0000_0000,
                );
            }
            cell = if nv > f30 as i128 {
                nv as i64
            } else {
                f30
            };
        } else {
            cell = h;
            proof {
                if h >= 0 {
                    assert((h as int) * 300_000 <= (h as int) * SCALE) by (nonlinear_arith)
                        requires
                            h >= 0,
                            SCALE == 1_000_000,
                    ;
                    vstd::arithmetic::div_mod::lemma_div_is_ordered(
                        (h as int) * 300_000,
                        (h as int) * SCALE,
                        SCALE as int,
                    );
                    vstd::arithmetic::div_mod::lemma_div_by_multiple(h as int, SCALE as int);
                    vstd::arithmetic::div_mod::lemma_div_pos_is_pos((h as int) * 300_000, SCALE as int);
                }
            }
        }
        out.push(cell);
        k = k + 1;
    }
    proof {
        assert(valid_grid(out@, field.spec_size()));
        assert(out@ =~= coastal_grid(field@, beach_mask@, erosion_amount));
    }
    field.replace_cells(out);
}

fn copy_vec_i64(v: &Vec<i64>) -> (r: Vec<i64>)
    ensures
        r@ == v@,
{
    let mut out: Vec<i64> = Vec::new();
    let mut i: usize = 0;
    let len = v.len();
    while i < len
        invariant
            i <= len,
            len == v@.len(),
            out@ =~= v@.subrange(0, i as int),
        decreases len - i,
    {
        out.push(v[i]);
        i = i + 1;
    }
    proof {
        assert(out@ =~= v@);
    }
    out
}

fn copy_vec_u64(v: &Vec<u64>) -> (r: Vec<u64>)
    ensures
        r@ == v@,
{
    let mut out: Vec<u64> = Vec::new();
    let mut i: usize = 0;
    let len = v.len();
    while i < len
        invariant
            i <= len,
            len == v@.len(),
            out@ =~= v@.subrange(0, i as int),
        decreases len - i,
    {
        out.push(v[i]);
        i = i + 1;
    }
    proof {
        assert(out@ =~= v@);
    }
    out
}

/// Final water mask: full strength wherever the carved terrain sits at or
/// below sea level, otherwise the river strength.
pub open spec fn water_mask_grid(g: Seq<i64>, river: Seq<i64>, sea: i64) -> Seq<i64> {
    Seq::new(
        g.len(),
        |i: int|
            {
                let below: i64 = if g[i] <= sea {
                    SCALE
                } else {
                    0i64
                };
                if below > river[i] {
                    below
                } else {
                    river[i]
                }
            },
    )
}

/// The four derived grids of one hydrology evaluation: always produced as
/// a matched set of the same side as the terrain they were derived from,
/// and stale the moment that terrain changes again.
pub struct WaterFeatures {
    water_mask: Vec<i64>,
    river_mask: Vec<i64>,
    beach_mask: Vec<i64>,
    flow_accumulation: Vec<u64>,
    size: usize,
}

impl WaterFeatures {
    pub closed spec fn spec_size(&self) -> int {
        self.size as int
    }

    pub closed spec fn water(&self) -> Seq<i64> {
        self.water_mask@
    }

    pub closed spec fn river(&self) -> Seq<i64> {
        self.river_mask@
    }

    pub closed spec fn beach(&self) -> Seq<i64> {
        self.beach_mask@
    }

    pub closed spec fn flow(&self) -> Seq<u64> {
        self.flow_accumulation@
    }

    /// Matched shapes, and every mask value within `[0, SCALE]`.
    pub open spec fn wf(&self) -> bool {
        &&& 0 <= self.spec_size() <= MAX_SIZE
        &&& self.water().len() == self.spec_size() * self.spec_size()
        &&& self.river().len() == self.water().len()
        &&& self.beach().len() == self.water().len()
        &&& self.flow().len() == self.water().len()
        &&& forall|i: int| 0 <= i < self.water().len() ==> 0 <= #[trigger] self.water()[i] <= SCALE
        &&& forall|i: int| 0 <= i < self.river().len() ==> 0 <= #[trigger] self.river()[i] <= SCALE
        &&& forall|i: int| 0 <= i < self.beach().len() ==> 0 <= #[trigger] self.beach()[i] <= SCALE
    }

    /// An all-zero feature set of the given side.
    pub fn new(size: usize) -> (r: WaterFeatures)
        requires
            size <= MAX_SIZE,
        ensures
            r.wf(),
            r.spec_size() == size,
            forall|i: int| 0 <= i < r.water().len() ==> #[trigger] r.water()[i] == 0i64,
            forall|i: int| 0 <= i < r.river().len() ==> #[trigger] r.river()[i] == 0i64,
            forall|i: int| 0 <= i < r.beach().len() ==> #[trigger] r.beach()[i] == 0i64,
            forall|i: int| 0 <= i < r.flow().len() ==> #[trigger] r.flow()[i] == 0u64,
    {
        proof {
            assert(size * size <= 0xFFFF_FFFFusize) by (nonlinear_arith)
                requires
                    size <= 65535,
            ;
        }
        let len: usize = size * size;
        let mut water: Vec<i64> = Vec::new();
        let mut river: Vec<i64> = Vec::new();
        let mut beach: Vec<i64> = Vec::new();
        let mut flowv: Vec<u64> = Vec::new();
        let mut i: usize = 0;
        while i < len
            invariant
                i <= len,
                water@.len() == i,
                river@.len() == i,
                beach@.len() == i,
                flowv@.len() == i,
                forall|q: int| 0 <= q < i ==> #[trigger] water@[q] == 0i64,
                forall|q: int| 0 <= q < i ==> #[trigger] river@[q] == 0i64,
                forall|q: int| 0 <= q < i ==> #[trigger] beach@[q] == 0i64,
                forall|q: int| 0 <= q < i ==> #[trigger] flowv@[q] == 0u64,
            decreases len - i,
        {
            water.push(0);
            river.push(0);
            beach.push(0);
            flowv.push(0);
            i = i + 1;
        }
        WaterFeatures { water_mask: water, river_mask: river, beach_mask: beach, flow_accumulation: flowv, size }
    }

    pub fn size(&self) -> (r: usize)
        ensures
            r == self.spec_size(),
    {
        self.size
    }

    /// Copy of the water mask.
    pub fn get_water_mask(&self) -> (r: Vec<i64>)
        ensures
            r@ == self.water(),
    {
        copy_vec_i64(&self.water_mask)
    }

    /// Copy of the river mask.
    pub fn get_river_mask(&self) -> (r: Vec<i64>)
        ensures
            r@ == self.river(),
    {
        copy_vec_i64(&self.river_mask)
    }

    /// Copy of the beach mask.
    pub fn get_beach_mask(&self) -> (r: Vec<i64>)
        ensures
            r@ == self.beach(),
    {
        copy_vec_i64(&self.beach_mask)
    }

    /// Copy of the flow accumulation grid.
    pub fn get_flow_accumulation(&self) -> (r: Vec<u64>)
        ensures
            r@ == self.flow(),
    {
        copy_vec_u64(&self.flow_accumulation)
    }

    /// A structurally fresh copy of the whole feature set.
    pub fn clone_features(&self) -> (r: WaterFeatures)
        ensures
            r.spec_size() == self.spec_size(),
            r.water() == self.water(),
            r.river() == self.river(),
            r.beach() == self.beach(),
            r.flow() == self.flow(),
            self.wf() ==> r.wf(),
    {
        WaterFeatures {
            water_mask: copy_vec_i64(&self.water_mask),
            river_mask: copy_vec_i64(&self.river_mask),
            beach_mask: copy_vec_i64(&self.beach_mask),
            flow_accumulation: copy_vec_u64(&self.flow_accumulation),
            size: self.size,
        }
    }
}

/// The flow grid together with its routed amounts obeys the D8 routing
/// law over terrain `g0`: a cell with a strictly downhill neighbour
/// routes exactly its accumulated flow (a local minimum routes nothing),
/// every cell's flow is one unit plus the inflow routed to it by the
/// cells whose steepest-descent target it is, and the total flow is one
/// unit per cell plus everything routed.
pub open spec fn flow_routing_law(g0: Seq<i64>, n: int, flow: Seq<u64>, routed: Seq<u64>) -> bool {
    let len = g0.len();
    &&& routed.len() == len
    &&& sum_to(flow, len as int) == len + sum_to(routed, len as int)
    &&& forall|i: int|
        0 <= i < len ==> (#[trigger] routed[i]) as int == if d8_target(g0, n, i % n, i / n) >= 0 {
            flow[i] as int
        } else {
            0int
        }
    &&& forall|c: int|
        0 <= c < len ==> (#[trigger] flow[c]) as int == 1 + inflow_to(g0, n, routed, c, len as int)
}

/// How one evaluation of the water system relates the terrain it read
/// (`g0`), the terrain it left behind (`g1`) and the feature set it
/// returned: flow obeys the D8 routing and conservation law over `g0`,
/// the river mask is the thresholded dilation of that flow, the beach
/// mask is the scanned falloff around `g0`'s water, the final terrain is
/// `g0` carved along the rivers and then eroded along the beaches, and
/// the water mask combines `g1`'s submerged cells with the rivers.
pub open spec fn water_system_rel(
    g0: Seq<i64>,
    n: int,
    p: WaterSystemParams,
    g1: Seq<i64>,
    w: WaterFeatures,
) -> bool {
    let len = g0.len();
    &&& w.spec_size() == n
    &&& w.flow().len() == len
    &&& forall|i: int| 0 <= i < len ==> 1 <= #[trigger] w.flow()[i] <= len
    &&& exists|routed: Seq<u64>| #[trigger] flow_routing_law(g0, n, w.flow(), routed)
    &&& w.river() == river_mask_grid(w.flow(), n, p.river_threshold)
    &&& w.beach() == beach_grid(g0, n, p.sea_level, p.beach_width)
    &&& g1 == coastal_grid(carve_grid(g0, n, w.river(), p.river_depth), w.beach(), p.coastal_erosion)
    &&& w.water() == water_mask_grid(g1, w.river(), p.sea_level)
}

/// The composed water system: compute flow over the terrain, derive river
/// and beach masks, carve the rivers, erode the coast, and return the
/// feature bundle together with the final water mask.
pub fn apply_water_system(field: &mut HeightField, params: &WaterSystemParams) -> (r: WaterFeatures)
    requires
        old(field).wf(),
        old(field).spec_size() >= 1,
        params.wf(),
    ensures
        final(field).wf(),
        final(field).spec_size() == old(field).spec_size(),
        r.wf(),
        water_system_rel(old(field)@, old(field).spec_size(), *params, final(field)@, r),
{
    let n = field.size();
    let ghost g0 = field@;
    let (flow, routed) = calculate_flow_accumulation(field);
    let river = generate_river_mask(field, &flow, params.river_threshold);
    let beach = generate_beach_mask(field, params.sea_level, params.beach_width);
    carve_rivers(field, &river, params.river_depth, params.river_width);
    apply_coastal_erosion(field, &beach, params.coastal_erosion);
    let len = flow.len();
    let cells = field.cells();
    let mut water: Vec<i64> = Vec::new();
    let mut k: usize = 0;
    while k < len
        invariant
            k <= len,
            len == cells@.len(),
            river@.len() == len,
            forall|i: int| 0 <= i < river@.len() ==> 0 <= #[trigger] river@[i] <= SCALE,
            water@.len() == k,
            forall|q: int|
                0 <= q < k ==> #[trigger] water@[q] == water_mask_grid(
                    cells@,
                    river@,
                    params.sea_level,
                )[q] && 0 <= water@[q] <= SCALE,
        decreases len - k,
    {
        let below: i64 = if cells[k] <= params.sea_level {
            SCALE
        } else {
            0
        };
        let rv = river[k];
        let cell = if below > rv {
            below
        } else {
            rv
        };
        water.push(cell);
        k = k + 1;
    }
    proof {
        assert(water@ =~= water_mask_grid(field@, river@, params.sea_level));
    }
    let out = WaterFeatures {
        water_mask: water,
        river_mask: river,
        beach_mask: beach,
        flow_accumulation: flow,
        size: n,
    };
    proof {
        assert(flow_routing_law(g0, n as int, out.flow(), routed@));
        assert(water_system_rel(g0, n as int, *params, field@, out));
    }
    out
}

} // verus!
