//! Square grids of fixed-point elevations, the substrate every other
//! component reads and mutates.
//!
//! A grid of side `n` owns `n * n` scalars in row-major order. Coordinate
//! reads clamp to the grid instead of failing; out-of-bounds writes are
//! silent no-ops.

use vstd::prelude::*;

verus! {

use crate::MAX_SIZE;
use crate::fixed::SCALE;
use crate::fixed::clamp_spec;
use crate::fixed::fx_valid;
use crate::fixed::lerp;
use crate::fixed::lerp_spec;

/// A row-major sequence of side `n` whose scalars are all representable.
pub open spec fn valid_grid(s: Seq<i64>, n: int) -> bool {
    &&& s.len() == n * n
    &&& forall|i: int| 0 <= i < s.len() ==> fx_valid(#[trigger] s[i])
}

/// Clamp a coordinate into `[0, n-1]`.
pub open spec fn clampc(n: int, c: int) -> int {
    if c < 0 {
        0
    } else if c > n - 1 {
        n - 1
    } else {
        c
    }
}

/// The scalar of cell `(x, y)` in a row-major grid of side `n`.
pub open spec fn at(s: Seq<i64>, n: int, x: int, y: int) -> i64 {
    s[y * n + x]
}

/// The scalar of cell `(x, y)` after clamping both coordinates to the grid.
pub open spec fn at_clamped(s: Seq<i64>, n: int, x: int, y: int) -> i64 {
    at(s, n, clampc(n, x), clampc(n, y))
}

/// Least scalar of a sequence (0 for an empty one).
pub open spec fn seq_min(s: Seq<i64>) -> int
    decreases s.len(),
{
    if s.len() == 0 {
        0
    } else if s.len() == 1 {
        s[0] as int
    } else {
        let m = seq_min(s.drop_last());
        if (s.last() as int) < m {
            s.last() as int
        } else {
            m
        }
    }
}

/// Greatest scalar of a sequence (0 for an empty one).
pub open spec fn seq_max(s: Seq<i64>) -> int
    decreases s.len(),
{
    if s.len() == 0 {
        0
    } else if s.len() == 1 {
        s[0] as int
    } else {
        let m = seq_max(s.drop_last());
        if (s.last() as int) > m {
            s.last() as int
        } else {
            m
        }
    }
}

/// The least scalar bounds every element and is attained somewhere.
pub proof fn lemma_seq_min_props(s: Seq<i64>)
    requires
        s.len() > 0,
    ensures
        forall|i: int| 0 <= i < s.len() ==> seq_min(s) <= (#[trigger] s[i]) as int,
        exists|i: int| 0 <= i < s.len() && (s[i] as int) == seq_min(s),
    decreases s.len(),
{
    if s.len() == 1 {
        assert(s[0] as int == seq_min(s));
    } else {
        lemma_seq_min_props(s.drop_last());
        assert forall|i: int| 0 <= i < s.len() implies seq_min(s) <= (#[trigger] s[i]) as int by {
            if i < s.len() - 1 {
                assert(s.drop_last()[i] == s[i]);
            }
        }
        if (s.last() as int) < seq_min(s.drop_last()) {
            assert(s[s.len() - 1] as int == seq_min(s));
        } else {
            let j = choose|j: int|
                0 <= j < s.drop_last().len() && (s.drop_last()[j] as int) == seq_min(
                    s.drop_last(),
                );
            assert(s.drop_last()[j] == s[j]);
            assert(s[j] as int == seq_min(s));
        }
    }
}

/// The greatest scalar bounds every element and is attained somewhere.
pub proof fn lemma_seq_max_props(s: Seq<i64>)
    requires
        s.len() > 0,
    ensures
        forall|i: int| 0 <= i < s.len() ==> (#[trigger] s[i]) as int <= seq_max(s),
        exists|i: int| 0 <= i < s.len() && (s[i] as int) == seq_max(s),
    decreases s.len(),
{
    if s.len() == 1 {
        assert(s[0] as int == seq_max(s));
    } else {
        lemma_seq_max_props(s.drop_last());
        assert forall|i: int| 0 <= i < s.len() implies (#[trigger] s[i]) as int <= seq_max(s) by {
            if i < s.len() - 1 {
                assert(s.drop_last()[i] == s[i]);
            }
        }
        if (s.last() as int) > seq_max(s.drop_last()) {
            assert(s[s.len() - 1] as int == seq_max(s));
        } else {
            let j = choose|j: int|
                0 <= j < s.drop_last().len() && (s.drop_last()[j] as int) == seq_max(
                    s.drop_last(),
                );
            assert(s.drop_last()[j] == s[j]);
            assert(s[j] as int == seq_max(s));
        }
    }
}

/// Writing an in-bounds cell and reading it back yields the written value:
/// over the grid model, `get (set g x y v) x y == v` for every valid size,
/// every in-bounds coordinate pair and every representable scalar.
pub proof fn lemma_get_set_round_trip(s: Seq<i64>, n: int, x: int, y: int, v: i64)
    requires
        valid_grid(s, n),
        0 <= x < n,
        0 <= y < n,
    ensures
        at_clamped(s.update(y * n + x, v), n, x, y) == v,
{
    assert(0 <= y * n + x < n * n) by (nonlinear_arith)
        requires
            0 <= x < n,
            0 <= y < n,
    ;
    assert(clampc(n, x) == x);
    assert(clampc(n, y) == y);
}

/// Source coordinate (in scalar units) for output index `i` when resampling
/// a grid of side `n` to side `m >= 2`.
pub open spec fn resample_coord(i: int, n: int, m: int) -> int {
    i * (n - 1) * SCALE / (m - 1)
}

/// Bilinear sample of a grid of side `n` for output cell `(i, j)` of a grid
/// of side `m`. A single-cell target reads the origin cell.
pub open spec fn resample_cell(s: Seq<i64>, n: int, m: int, i: int, j: int) -> i64 {
    if m == 1 {
        at(s, n, 0, 0)
    } else {
        let u = resample_coord(i, n, m);
        let v = resample_coord(j, n, m);
        let x0 = u / (SCALE as int);
        let y0 = v / (SCALE as int);
        let fx = u - x0 * SCALE;
        let fy = v - y0 * SCALE;
        let x1 = if x0 + 1 < n - 1 { x0 + 1 } else { n - 1 };
        let y1 = if y0 + 1 < n - 1 { y0 + 1 } else { n - 1 };
        let a = lerp_spec(at(s, n, x0, y0), at(s, n, x1, y0), fx as i64);
        let b = lerp_spec(at(s, n, x0, y1), at(s, n, x1, y1), fx as i64);
        lerp_spec(a, b, fy as i64)
    }
}

/// The whole grid resampled to side `m` (an equal side yields the grid
/// itself).
pub open spec fn resample_grid_spec(s: Seq<i64>, n: int, m: int) -> Seq<i64> {
    if m == n {
        s
    } else {
        Seq::new((m * m) as nat, |q: int| resample_cell(s, n, m, q % m, q / m))
    }
}

/// A cell after a linear rescale of the whole grid into `[0, SCALE]`.
pub open spec fn normalize_cell(s: Seq<i64>, i: int) -> i64 {
    (((s[i] as int) - seq_min(s)) * SCALE / (seq_max(s) - seq_min(s))) as i64
}

/// A square grid of fixed-point elevations.
pub struct HeightField {
    size: usize,
    data: Vec<i64>,
}

impl View for HeightField {
    type V = Seq<i64>;

    closed spec fn view(&self) -> Seq<i64> {
        self.data@
    }
}

impl HeightField {
    /// Side length of the grid.
    pub closed spec fn spec_size(&self) -> int {
        self.size as int
    }

    /// The structural invariant: a representable square grid of a side the
    /// platform can index.
    pub open spec fn wf(&self) -> bool {
        &&& 0 <= self.spec_size() <= MAX_SIZE
        &&& valid_grid(self@, self.spec_size())
    }

    /// A zero-filled grid of the given side.
    pub fn new(size: usize) -> (r: HeightField)
        requires
            size <= MAX_SIZE,
        ensures
            r.wf(),
            r.spec_size() == size,
            forall|i: int| 0 <= i < r@.len() ==> r@[i] == 0i64,
    {
        HeightField::with_fill(size, 0)
    }

    /// A grid of the given side with every cell set to `fill`.
    pub fn with_fill(size: usize, fill: i64) -> (r: HeightField)
        requires
            size <= MAX_SIZE,
            fx_valid(fill),
        ensures
            r.wf(),
            r.spec_size() == size,
            forall|i: int| 0 <= i < r@.len() ==> r@[i] == fill,
    {
        proof {
            assert(size * size <= 0xFFFF_FFFFusize) by (nonlinear_arith)
                requires
                    size <= 65535,
            ;
        }
        let len: usize = size * size;
        let mut data: Vec<i64> = Vec::new();
        let mut i: usize = 0;
        while i < len
            invariant
                i <= len,
                data@.len() == i,
                forall|k: int| 0 <= k < i ==> data@[k] == fill,
            decreases len - i,
        {
            data.push(fill);
            i = i + 1;
        }
        HeightField { size, data }
    }

    /// Side length.
    pub fn size(&self) -> (r: usize)
        ensures
            r == self.spec_size(),
    {
        self.size
    }

    /// Read cell `(x, y)`; coordinates at or past the edge clamp to it.
    pub fn get(&self, x: usize, y: usize) -> (r: i64)
        requires
            self.wf(),
            self.spec_size() >= 1,
        ensures
            r == at_clamped(self@, self.spec_size(), x as int, y as int),
    {
        let n = self.size;
        let xc: usize = if x < n { x } else { n - 1 };
        let yc: usize = if y < n { y } else { n - 1 };
        proof {
            assert(yc * n + xc < n * n && n * n <= 0xFFFF_FFFFusize) by (nonlinear_arith)
                requires
                    xc < n,
                    yc < n,
                    n <= 65535,
            ;
        }
        self.data[yc * n + xc]
    }

    /// Read cell `(x, y)` for signed coordinates, clamping both into the grid.
    pub fn get_clamped(&self, x: i64, y: i64) -> (r: i64)
        requires
            self.wf(),
            self.spec_size() >= 1,
        ensures
            r == at_clamped(self@, self.spec_size(), x as int, y as int),
    {
        let n = self.size;
        let xc: usize = if x < 0 {
            0
        } else if x >= n as i64 {
            n - 1
        } else {
            x as usize
        };
        let yc: usize = if y < 0 {
            0
        } else if y >= n as i64 {
            n - 1
        } else {
            y as usize
        };
        proof {
            assert(yc * n + xc < n * n && n * n <= 0xFFFF_FFFFusize) by (nonlinear_arith)
                requires
                    xc < n,
                    yc < n,
                    n <= 65535,
            ;
        }
        self.data[yc * n + xc]
    }

    /// Write cell `(x, y)`; out-of-bounds coordinates make this a no-op.
    pub fn set(&mut self, x: usize, y: usize, value: i64)
        requires
            old(self).wf(),
            fx_valid(value),
        ensures
            final(self).wf(),
            final(self).spec_size() == old(self).spec_size(),
            final(self)@ == if x < old(self).spec_size() && y < old(self).spec_size() {
                old(self)@.update(y * old(self).spec_size() + x, value)
            } else {
                old(self)@
            },
    {
        let n = self.size;
        if x < n && y < n {
            proof {
                assert(y * n + x < n * n && n * n <= 0xFFFF_FFFFusize) by (nonlinear_arith)
                    requires
                        x < n,
                        y < n,
                        n <= 65535,
                ;
            }
            self.data[y * n + x] = value;
        }
    }

    /// Copy of the raw row-major cell array.
    pub fn get_data(&self) -> (r: Vec<i64>)
        ensures
            r@ == self@,
    {
        let mut out: Vec<i64> = Vec::new();
        let mut i: usize = 0;
        let len = self.data.len();
        while i < len
            invariant
                i <= len,
                len == self.data@.len(),
                out@ =~= self.data@.subrange(0, i as int),
            decreases len - i,
        {
            out.push(self.data[i]);
            i = i + 1;
        }
        proof {
            assert(out@ =~= self@);
        }
        out
    }

    /// Replace every cell from a raw array of matching length, saturating
    /// each scalar into the representable range; a length mismatch leaves
    /// the grid untouched.
    pub fn set_data(&mut self, data: &Vec<i64>)
        requires
            old(self).wf(),
        ensures
            final(self).wf(),
            final(self).spec_size() == old(self).spec_size(),
            data@.len() != old(self)@.len() ==> final(self)@ == old(self)@,
            data@.len() == old(self)@.len() ==> {
                &&& final(self)@.len() == old(self)@.len()
                &&& forall|i: int|
                    0 <= i < data@.len() ==> final(self)@[i] == clamp_spec(
                        (#[trigger] data@[i]) as int,
                    )
            },
    {
        let len = self.data.len();
        if data.len() == len {
            let mut i: usize = 0;
            while i < len
                invariant
                    i <= len,
                    len == self.data@.len(),
                    data@.len() == len,
                    self.size == old(self).size,
                    old(self).wf(),
                    forall|k: int|
                        0 <= k < i ==> self.data@[k] == clamp_spec((#[trigger] data@[k]) as int),
                    forall|k: int| i <= k < len ==> self.data@[k] == old(self)@[k],
                decreases len - i,
            {
                let v = crate::fixed::clamp_i128(data[i] as i128);
                self.data[i] = v;
                i = i + 1;
            }
            proof {
                assert forall|k: int| 0 <= k < len implies fx_valid(#[trigger] self.data@[k]) by {
                    assert(self.data@[k] == clamp_spec((data@[k]) as int));
                }
            }
        }
    }

    /// Borrow the raw row-major cell array.
    pub fn cells(&self) -> (r: &Vec<i64>)
        ensures
            r@ == self@,
    {
        &self.data
    }

    /// Swap in a freshly computed cell array of the same shape.
    pub fn replace_cells(&mut self, data: Vec<i64>)
        requires
            old(self).wf(),
            valid_grid(data@, old(self).spec_size()),
        ensures
            final(self).wf(),
            final(self).spec_size() == old(self).spec_size(),
            final(self)@ == data@,
    {
        self.data = data;
    }

    /// A grid owning a prepared cell array.
    pub fn from_cells(size: usize, data: Vec<i64>) -> (r: HeightField)
        requires
            size <= MAX_SIZE,
            valid_grid(data@, size as int),
        ensures
            r.wf(),
            r.spec_size() == size,
            r@ == data@,
    {
        HeightField { size, data }
    }

    /// A structurally fresh copy of the grid.
    pub fn clone_field(&self) -> (r: HeightField)
        requires
            self.wf(),
        ensures
            r.wf(),
            r.spec_size() == self.spec_size(),
            r@ == self@,
    {
        let data = self.get_data();
        proof {
            assert(valid_grid(data@, self.spec_size()));
        }
        HeightField { size: self.size, data }
    }

    /// Resample to a new side length by bilinear interpolation; the same
    /// side (including an empty grid) yields an equal copy.
    pub fn resample_to(&self, new_size: usize) -> (r: HeightField)
        requires
            self.wf(),
            new_size <= MAX_SIZE,
            new_size == self.spec_size() || (self.spec_size() >= 1 && new_size >= 1),
        ensures
            r.wf(),
            r.spec_size() == new_size,
            new_size == self.spec_size() ==> r@ == self@,
            new_size != self.spec_size() ==> forall|i: int, j: int|
                0 <= i < new_size && 0 <= j < new_size ==> #[trigger] at(
                    r@,
                    new_size as int,
                    i,
                    j,
                ) == resample_cell(self@, self.spec_size(), new_size as int, i, j),
            r@ == resample_grid_spec(self@, self.spec_size(), new_size as int),
    {
        if new_size == self.size {
            return self.clone_field();
        }
        let n = self.size;
        let m = new_size;
        proof {
            assert(m * m <= 0xFFFF_FFFFusize) by (nonlinear_arith)
                requires
                    m <= 65535,
            ;
        }
        let len: usize = m * m;
        let mut out: Vec<i64> = Vec::new();
        let mut k: usize = 0;
        while k < len
            invariant
                k <= len,
                len == m * m,
                self.wf(),
                n == self.spec_size(),
                1 <= n <= MAX_SIZE,
                1 <= m <= MAX_SIZE,
                out@.len() == k,
                forall|q: int|
                    0 <= q < k ==> #[trigger] out@[q] == resample_cell(
                        self@,
                        n as int,
                        m as int,
                        q % (m as int),
                        q / (m as int),
                    ) && fx_valid(out@[q]),
            decreases len - k,
        {
            let x: usize = k % m;
            let y: usize = k / m;
            proof {
                vstd::arithmetic::div_mod::lemma_fundamental_div_mod(k as int, m as int);
                assert((k as int) / (m as int) < m) by (nonlinear_arith)
                    requires
                        (k as int) < (m as int) * (m as int),
                        0 < m as int,
                        (m as int) * ((k as int) / (m as int)) + (k as int) % (m as int) == k as int,
                        0 <= (k as int) % (m as int) < m as int,
                ;
            }
            let value: i64 = self.resample_sample(x, y, m);
            out.push(value);
            k = k + 1;
        }
        proof {
            assert(valid_grid(out@, m as int));
            assert(out@ =~= resample_grid_spec(self@, n as int, m as int));
            assert forall|i: int, j: int| 0 <= i < m && 0 <= j < m implies #[trigger] at(
                out@,
                m as int,
                i,
                j,
            ) == resample_cell(self@, n as int, m as int, i, j) by {
                let q = j * (m as int) + i;
                assert(0 <= q < (m as int) * (m as int)) by (nonlinear_arith)
                    requires
                        0 <= i < m as int,
                        0 <= j < m as int,
                        q == j * (m as int) + i,
                ;
                vstd::arithmetic::div_mod::lemma_fundamental_div_mod_converse(
                    q,
                    m as int,
                    j,
                    i,
                );
            }
        }
        HeightField { size: m, data: out }
    }

    /// One bilinear sample for `resample_to`.
    fn resample_sample(&self, i: usize, j: usize, m: usize) -> (r: i64)
        requires
            self.wf(),
            self.spec_size() >= 1,
            1 <= m <= MAX_SIZE,
            i < m,
            j < m,
        ensures
            r == resample_cell(self@, self.spec_size(), m as int, i as int, j as int),
            fx_valid(r),
    {
        let n = self.size;
        proof {
            assert(1 <= n * n && n * n <= 0xFFFF_FFFFusize) by (nonlinear_arith)
                requires
                    1 <= n <= 65535,
            ;
        }
        if m == 1 {
            proof {
                assert(0 * (n as int) + 0 == 0);
            }
            return self.data[0];
        }
        let (x0, fx) = resample_axis(i, n, m);
        let (y0, fy) = resample_axis(j, n, m);
        let x1: usize = if x0 + 1 < n - 1 {
            x0 + 1
        } else {
            n - 1
        };
        let y1: usize = if y0 + 1 < n - 1 {
            y0 + 1
        } else {
            n - 1
        };
        proof {
            assert(y0 * n + x0 < n * n && y0 * n + x1 < n * n && y1 * n + x0 < n * n && y1 * n + x1
                < n * n && n * n <= 0xFFFF_FFFFusize) by (nonlinear_arith)
                requires
                    x0 < n,
                    x1 < n,
                    y0 < n,
                    y1 < n,
                    n <= 65535,
            ;
        }
        let h00 = self.data[y0 * n + x0];
        let h10 = self.data[y0 * n + x1];
        let h01 = self.data[y1 * n + x0];
        let h11 = self.data[y1 * n + x1];
        let a = lerp(h00, h10, fx);
        let b = lerp(h01, h11, fx);
        lerp(a, b, fy)
    }

    /// Rescale all cells linearly so the least becomes 0 and the greatest
    /// becomes `SCALE`; empty and constant grids are untouched.
    pub fn normalize(&mut self)
        requires
            old(self).wf(),
        ensures
            final(self).wf(),
            final(self).spec_size() == old(self).spec_size(),
            old(self)@.len() == 0 || seq_min(old(self)@) == seq_max(old(self)@) ==> final(self)@
                == old(self)@,
            old(self)@.len() > 0 && seq_min(old(self)@) != seq_max(old(self)@) ==> {
                &&& final(self)@.len() == old(self)@.len()
                &&& forall|i: int|
                    0 <= i < old(self)@.len() ==> #[trigger] final(self)@[i] == normalize_cell(
                        old(self)@,
                        i,
                    )
                &&& forall|i: int|
                    0 <= i < final(self)@.len() ==> 0 <= (#[trigger] final(self)@[i]) <= SCALE
                &&& exists|i: int| 0 <= i < final(self)@.len() && final(self)@[i] == 0i64
                &&& exists|i: int| 0 <= i < final(self)@.len() && final(self)@[i] == SCALE
            },
    {
        let len = self.data.len();
        if len == 0 {
            return ;
        }
        let ghost s0 = self@;
        let mut mn: i64 = self.data[0];
        let mut mx: i64 = self.data[0];
        let mut i: usize = 1;
        while i < len
            invariant
                1 <= i <= len,
                len == self.data@.len(),
                mn as int == seq_min(self.data@.subrange(0, i as int)),
                mx as int == seq_max(self.data@.subrange(0, i as int)),
            decreases len - i,
        {
            let v = self.data[i];
            proof {
                let pre = self.data@.subrange(0, i as int);
                let ext = self.data@.subrange(0, i as int + 1);
                assert(ext.drop_last() =~= pre);
                assert(ext.last() == v);
            }
            if v < mn {
                mn = v;
            }
            if v > mx {
                mx = v;
            }
            i = i + 1;
        }
        proof {
            assert(self.data@.subrange(0, len as int) =~= self.data@);
            lemma_seq_min_props(s0);
            lemma_seq_max_props(s0);
        }
        if mx > mn {
            let ghost span: int = mx as int - mn as int;
            let mut k: usize = 0;
            while k < len
                invariant
                    k <= len,
                    len == self.data@.len(),
                    self.size == old(self).size,
                    s0 == old(self)@,
                    s0.len() == len,
                    mn as int == seq_min(s0),
                    mx as int == seq_max(s0),
                    span == mx as int - mn as int,
                    span > 0,
                    forall|i: int| 0 <= i < s0.len() ==> mn <= (#[trigger] s0[i]) && (s0[i]) <= mx,
                    forall|i: int| k <= i < len ==> #[trigger] self.data@[i] == s0[i],
                    forall|i: int|
                        0 <= i < k ==> #[trigger] self.data@[i] == normalize_cell(s0, i) && 0
                            <= self.data@[i] <= SCALE,
                decreases len - k,
            {
                let v = self.data[k];
                let diff: u128 = ((v as i128) - (mn as i128)) as u128;
                let spanw: u128 = ((mx as i128) - (mn as i128)) as u128;
                proof {
                    assert(diff as int == (v as int) - (mn as int));
                    assert(spanw as int == span);
                    assert(diff as int * (SCALE as int) <= span * (SCALE as int)
                        && 0x8000_0000_0000_0000 * 0x100000 < u128::MAX) by (nonlinear_arith)
                        requires
                            0 <= diff as int <= span <= 0x8000_0000_0000_0000 * 2,
                            0 < SCALE as int <= 0x100000,
                    ;
                }
                let num: u128 = diff * (SCALE as u128);
                let q: u128 = num / spanw;
                proof {
                    vstd::arithmetic::div_mod::lemma_div_is_ordered(
                        (diff as int) * SCALE,
                        span * SCALE,
                        span,
                    );
                    vstd::arithmetic::div_mod::lemma_div_multiples_vanish(SCALE as int, span);
                    vstd::arithmetic::div_mod::lemma_div_pos_is_pos((diff as int) * SCALE, span);
                }
                self.data[k] = q as i64;
                k = k + 1;
            }
            proof {
                let smin = choose|i: int| 0 <= i < s0.len() && (s0[i] as int) == seq_min(s0);
                assert(self.data@[smin] == normalize_cell(s0, smin));
                assert((s0[smin] as int - seq_min(s0)) * SCALE == 0) by (nonlinear_arith)
                    requires
                        s0[smin] as int == seq_min(s0),
                ;
                assert(self.data@[smin] == 0i64) by {
                    vstd::arithmetic::div_mod::lemma_div_of0(seq_max(s0) - seq_min(s0));
                }
                let smax = choose|i: int| 0 <= i < s0.len() && (s0[i] as int) == seq_max(s0);
                assert(self.data@[smax] == normalize_cell(s0, smax));
                assert(self.data@[smax] == SCALE) by {
                    vstd::arithmetic::div_mod::lemma_div_multiples_vanish(
                        SCALE as int,
                        seq_max(s0) - seq_min(s0),
                    );
                }
            }
        }
    }
}

/// Source cell index and fractional weight along one axis for resampling.
fn resample_axis(i: usize, n: usize, m: usize) -> (r: (usize, i64))
    requires
        1 <= n <= MAX_SIZE,
        2 <= m <= MAX_SIZE,
        i < m,
    ensures
        r.0 == resample_coord(i as int, n as int, m as int) / (SCALE as int),
        r.1 == resample_coord(i as int, n as int, m as int) - r.0 * SCALE,
        r.0 < n,
        0 <= r.1 < SCALE,
{
    proof {
        assert((i as int) * ((n - 1) as int) <= 0xFFFF_FFFF && (i as int) * ((n - 1) as int) * (
        SCALE as int) <= 0xFFFF_FFFF_FFFF_FFFF) by (nonlinear_arith)
            requires
                i < 65536,
                0 <= (n - 1) as int <= 65535,
                SCALE == 1_000_000,
        ;
    }
    let num: u128 = (i as u128) * ((n - 1) as u128) * (SCALE as u128);
    let u: u128 = num / ((m - 1) as u128);
    proof {
        assert((i as int) * ((n - 1) as int) * SCALE <= ((m - 1) as int) * ((n - 1) as int)
            * SCALE) by (nonlinear_arith)
            requires
                i < m,
                n >= 1,
                SCALE as int > 0,
        ;
        vstd::arithmetic::div_mod::lemma_div_is_ordered(
            (i as int) * ((n - 1) as int) * SCALE,
            ((m - 1) as int) * ((n - 1) as int) * SCALE,
            (m - 1) as int,
        );
        assert(((m - 1) as int) * ((n - 1) as int) * SCALE == (((n - 1) as int) * SCALE) * ((m
            - 1) as int)) by (nonlinear_arith);
        vstd::arithmetic::div_mod::lemma_div_by_multiple(
            ((n - 1) as int) * SCALE,
            (m - 1) as int,
        );
        vstd::arithmetic::div_mod::lemma_div_pos_is_pos(
            (i as int) * ((n - 1) as int) * SCALE,
            (m - 1) as int,
        );
    }
    let x0: u128 = u / (SCALE as u128);
    let fx: u128 = u - x0 * (SCALE as u128);
    proof {
        vstd::arithmetic::div_mod::lemma_fundamental_div_mod(u as int, SCALE as int);
        assert(x0 as int <= ((n - 1) as int)) by {
            vstd::arithmetic::div_mod::lemma_div_is_ordered(
                u as int,
                ((n - 1) as int) * SCALE,
                SCALE as int,
            );
            vstd::arithmetic::div_mod::lemma_div_by_multiple((n - 1) as int, SCALE as int);
        }
        assert(fx as int == u as int % (SCALE as int));
        vstd::arithmetic::div_mod::lemma_mod_division_less_than_divisor(u as int, SCALE as int);
    }
    (x0 as usize, fx as i64)
}

} // verus!
