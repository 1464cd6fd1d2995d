//! Tiling and atlas packing: slice one finished terrain into named tiles
//! with UV rectangles. This is bulk copying around the simulation — no
//! pass here re-runs any synthesis.

use vstd::prelude::*;

verus! {

use crate::MAX_SIZE;
use crate::biomes::BiomeType;
use crate::fixed::SCALE;
use crate::fixed::fx_valid;
use crate::height_field::HeightField;
use crate::height_field::at;
use crate::height_field::valid_grid;
use crate::erosion::FAST_PATH_YEARS;
use crate::erosion::geo_main_rel;
use crate::erosion::fast_water_params;
use crate::height_field::resample_grid_spec;
use crate::terrain::erosion_params_spec;
use crate::terrain::final_size_spec;
use crate::terrain::generate_terrain;
use crate::terrain::terrain_grid_spec;
use crate::water_system::WaterFeatures;
use crate::water_system::water_system_rel;
use vstd::arithmetic::power2::pow2;

/// A tile's UV rectangle within the atlas, in scalar units of the atlas
/// extent.
#[derive(Clone, Copy, PartialEq, Eq, Structural)]
pub struct UvRect {
    pub u0: i64,
    pub v0: i64,
    pub u1: i64,
    pub v1: i64,
}

/// A fraction `num / den` of an extent, as a scalar.
pub open spec fn uv_frac(num: int, den: int) -> i64 {
    ((num * SCALE) / den) as i64
}

/// The UV rectangle of tile `(row, col)` in an atlas of `aw x ah` cells
/// with tiles `inner` cells apart.
pub open spec fn rect_spec(row: int, col: int, inner: int, aw: int, ah: int) -> UvRect {
    UvRect {
        u0: uv_frac(col * inner, aw),
        v0: uv_frac(row * inner, ah),
        u1: uv_frac((col + 1) * inner, aw),
        v1: uv_frac((row + 1) * inner, ah),
    }
}

/// Side of the square grid a tile layout is sliced from: the larger of
/// the atlas's two extents.
pub open spec fn atlas_side_spec(rows: int, cols: int, inner: int) -> int {
    if cols * inner > rows * inner {
        cols * inner
    } else {
        rows * inner
    }
}

/// The step count a tile layout generates with: doublings from the base
/// side until it reaches `asize`, at most six steps, never doubling past
/// the representable side length.
pub open spec fn tile_steps_from(reach: int, asize: int, steps: nat) -> nat
    decreases 6 - steps,
{
    if steps >= 6 || reach >= asize || reach > 16383 {
        steps
    } else {
        tile_steps_from(2 * reach, asize, (steps + 1) as nat)
    }
}

pub open spec fn tile_steps_spec(base: int, asize: int) -> nat {
    tile_steps_from(base, asize, 1)
}

/// One source grid explains every output of a tile grid: the atlas is its
/// crop, and every tile cell is the source cell at the tile's offset (zero
/// past the source's extent).
pub open spec fn tile_grid_consistent(r: TileGrid, cols: int, tile_size: int, src: Seq<i64>) -> bool {
    let asize: int = if r.spec_aw() > r.spec_ah() {
        r.spec_aw()
    } else {
        r.spec_ah()
    };
    &&& valid_grid(src, asize)
    &&& r.spec_atlas().len() == r.spec_aw() * r.spec_ah()
    &&& forall|x: int, y: int|
        0 <= x < r.spec_aw() && 0 <= y < r.spec_ah() ==> #[trigger] r.spec_atlas()[y * r.spec_aw()
            + x] == at(src, asize, x, y)
    &&& forall|t: int, x: int, y: int|
        0 <= t < r.spec_tiles().len() && 0 <= x < tile_size && 0 <= y < tile_size ==> #[trigger] at(
            r.spec_tiles()[t]@,
            tile_size,
            x,
            y,
        ) == {
            let sx = (t % cols) * r.spec_inner() + x;
            let sy = (t / cols) * r.spec_inner() + y;
            if sx < asize && sy < asize {
                at(src, asize, sx, sy)
            } else {
                0i64
            }
        }
}

/// A sliced terrain: per-tile grids, the packed atlas, and UV rectangles,
/// plus the water features of the generation run when erosion ran.
pub struct TileGrid {
    tiles: Vec<HeightField>,
    inner_size: usize,
    atlas: Vec<i64>,
    atlas_w: usize,
    atlas_h: usize,
    rects: Vec<UvRect>,
    water_features: Option<WaterFeatures>,
}

impl TileGrid {
    pub closed spec fn spec_tiles(&self) -> Seq<HeightField> {
        self.tiles@
    }

    pub closed spec fn spec_inner(&self) -> int {
        self.inner_size as int
    }

    pub closed spec fn spec_atlas(&self) -> Seq<i64> {
        self.atlas@
    }

    pub closed spec fn spec_aw(&self) -> int {
        self.atlas_w as int
    }

    pub closed spec fn spec_ah(&self) -> int {
        self.atlas_h as int
    }

    pub closed spec fn spec_rects(&self) -> Seq<UvRect> {
        self.rects@
    }

    pub closed spec fn spec_water(&self) -> Option<WaterFeatures> {
        self.water_features
    }

    pub fn tiles(&self) -> (r: &Vec<HeightField>)
        ensures
            r@ == self.spec_tiles(),
    {
        &self.tiles
    }

    pub fn inner_size(&self) -> (r: usize)
        ensures
            r == self.spec_inner(),
    {
        self.inner_size
    }

    pub fn atlas(&self) -> (r: &Vec<i64>)
        ensures
            r@ == self.spec_atlas(),
    {
        &self.atlas
    }

    pub fn atlas_w(&self) -> (r: usize)
        ensures
            r == self.spec_aw(),
    {
        self.atlas_w
    }

    pub fn atlas_h(&self) -> (r: usize)
        ensures
            r == self.spec_ah(),
    {
        self.atlas_h
    }

    pub fn rects(&self) -> (r: &Vec<UvRect>)
        ensures
            r@ == self.spec_rects(),
    {
        &self.rects
    }

    pub fn water_features(&self) -> (r: &Option<WaterFeatures>)
        ensures
            r is Some <==> self.spec_water() is Some,
    {
        &self.water_features
    }
}

/// Generate one terrain sized for the whole tile grid, then slice it:
/// every tile is a plain copy of its atlas region (zero outside), the
/// atlas is the same source cropped to `aw x ah`, and each tile's UV
/// rectangle is its exact fractional position. Copy-only bookkeeping:
/// the one source grid ties all outputs together.
pub fn generate_continuous_tile_grid(
    rows: usize,
    cols: usize,
    tile_size: usize,
    overlap: usize,
    base_size: usize,
    _steps: u32,
    seed: u32,
    biome_type: BiomeType,
    sea_level: i64,
    erosion_years: i64,
) -> (r: TileGrid)
    requires
        1 <= rows,
        1 <= cols,
        2 * overlap < tile_size,
        tile_size <= MAX_SIZE,
        rows * cols <= MAX_SIZE,
        rows * (tile_size - 2 * overlap) <= MAX_SIZE,
        cols * (tile_size - 2 * overlap) <= MAX_SIZE,
        1 <= base_size,
        4 * base_size <= MAX_SIZE,
        fx_valid(sea_level),
        fx_valid(erosion_years),
    ensures
        r.spec_inner() == tile_size - 2 * overlap,
        r.spec_aw() == cols * (tile_size - 2 * overlap),
        r.spec_ah() == rows * (tile_size - 2 * overlap),
        r.spec_tiles().len() == rows * cols,
        r.spec_rects().len() == rows * cols,
        (r.spec_water() is Some) <==> erosion_years > 0,
        forall|t: int|
            0 <= t < r.spec_tiles().len() ==> (#[trigger] r.spec_tiles()[t]).wf()
                && r.spec_tiles()[t].spec_size() == tile_size,
        forall|t: int|
            0 <= t < r.spec_rects().len() ==> #[trigger] r.spec_rects()[t] == rect_spec(
                t / (cols as int),
                t % (cols as int),
                r.spec_inner(),
                r.spec_aw(),
                r.spec_ah(),
            ),
        erosion_years <= 0 ==> tile_grid_consistent(
            r,
            cols as int,
            tile_size as int,
            resample_grid_spec(
                terrain_grid_spec(
                    base_size as int,
                    tile_steps_spec(
                        base_size as int,
                        atlas_side_spec(rows as int, cols as int, tile_size - 2 * overlap),
                    ),
                    seed,
                    biome_type,
                ),
                final_size_spec(
                    base_size as int,
                    tile_steps_spec(
                        base_size as int,
                        atlas_side_spec(rows as int, cols as int, tile_size - 2 * overlap),
                    ),
                ),
                atlas_side_spec(rows as int, cols as int, tile_size - 2 * overlap),
            ),
        ),
        erosion_years > 0 ==> exists|finished: Seq<i64>|
            {
                &&& #[trigger] tile_grid_consistent(
                    r,
                    cols as int,
                    tile_size as int,
                    resample_grid_spec(
                        finished,
                        final_size_spec(
                            base_size as int,
                            tile_steps_spec(
                                base_size as int,
                                atlas_side_spec(rows as int, cols as int, tile_size - 2 * overlap),
                            ),
                        ),
                        atlas_side_spec(rows as int, cols as int, tile_size - 2 * overlap),
                    ),
                )
                &&& erosion_years < FAST_PATH_YEARS ==> water_system_rel(
                    terrain_grid_spec(
                        base_size as int,
                        tile_steps_spec(
                            base_size as int,
                            atlas_side_spec(rows as int, cols as int, tile_size - 2 * overlap),
                        ),
                        seed,
                        biome_type,
                    ),
                    final_size_spec(
                        base_size as int,
                        tile_steps_spec(
                            base_size as int,
                            atlas_side_spec(rows as int, cols as int, tile_size - 2 * overlap),
                        ),
                    ),
                    fast_water_params(sea_level),
                    finished,
                    r.spec_water().unwrap(),
                )
                &&& erosion_years >= FAST_PATH_YEARS ==> geo_main_rel(
                    terrain_grid_spec(
                        base_size as int,
                        tile_steps_spec(
                            base_size as int,
                            atlas_side_spec(rows as int, cols as int, tile_size - 2 * overlap),
                        ),
                        seed,
                        biome_type,
                    ),
                    final_size_spec(
                        base_size as int,
                        tile_steps_spec(
                            base_size as int,
                            atlas_side_spec(rows as int, cols as int, tile_size - 2 * overlap),
                        ),
                    ),
                    erosion_params_spec(biome_type, sea_level, erosion_years),
                    finished,
                    r.spec_water().unwrap(),
                )
            },
{
    let inner: usize = tile_size - 2 * overlap;
    let aw: usize = cols * inner;
    let ah: usize = rows * inner;
    let asize: usize = if aw > ah {
        aw
    } else {
        ah
    };
    proof {
        assert(asize >= 1) by (nonlinear_arith)
            requires
                asize >= cols * inner || asize >= rows * inner,
                cols >= 1,
                rows >= 1,
                inner >= 1,
                asize == cols * inner || asize == rows * inner,
        ;
        assert(pow2(0) == 1 && pow2(1) == 2) by {
            vstd::arithmetic::power2::lemma2_to64();
        }
        assert(base_size * pow2(0) == base_size) by (nonlinear_arith)
            requires
                pow2(0) == 1,
        ;
        assert(1 <= aw && 1 <= ah) by (nonlinear_arith)
            requires
                rows >= 1,
                cols >= 1,
                inner >= 1,
                aw == cols * inner,
                ah == rows * inner,
        ;
    }
    // pick the step count: enough doublings from the base to reach the
    // atlas extent, at most six steps, and never past the representable
    // side length
    let mut steps_eff: u32 = 1;
    let mut reach: usize = base_size;
    while steps_eff < 6 && reach < asize && reach <= MAX_SIZE / 4
        invariant
            1 <= steps_eff <= 6,
            reach == base_size * pow2((steps_eff - 1) as nat),
            1 <= base_size,
            4 * base_size <= MAX_SIZE,
            2 * reach <= MAX_SIZE,
            tile_steps_from(reach as int, asize as int, steps_eff as nat) == tile_steps_spec(
                base_size as int,
                asize as int,
            ),
        decreases 6 - steps_eff,
    {
        proof {
            vstd::arithmetic::power2::lemma_pow2_unfold(steps_eff as nat);
            assert(base_size * (2 * pow2((steps_eff - 1) as nat)) == 2 * (base_size * pow2((
            steps_eff - 1) as nat))) by (nonlinear_arith);
        }
        reach = reach * 2;
        steps_eff = steps_eff + 1;
    }
    proof {
        vstd::arithmetic::power2::lemma_pow2_unfold(steps_eff as nat);
        assert(base_size * pow2(steps_eff as nat) == 2 * (base_size * pow2((steps_eff
            - 1) as nat))) by (nonlinear_arith)
            requires
                pow2(steps_eff as nat) == 2 * pow2((steps_eff - 1) as nat),
        ;
    }
    proof {
        assert(steps_eff as nat == tile_steps_spec(base_size as int, asize as int));
        assert(asize as int == atlas_side_spec(rows as int, cols as int, inner as int));
    }
    let terrain_result = generate_terrain(
        base_size,
        steps_eff,
        seed,
        biome_type,
        sea_level,
        erosion_years,
    );
    let finished = terrain_result.height_field();
    proof {
        vstd::arithmetic::power2::lemma_pow2_pos((steps_eff - 1) as nat);
        assert(base_size * pow2((steps_eff - 1) as nat) >= 1) by (nonlinear_arith)
            requires
                base_size >= 1,
                pow2((steps_eff - 1) as nat) >= 1,
        ;
    }
    let atlas_hf = finished.resample_to(asize);
    let ghost src = atlas_hf@;
    let ghost finished_view = finished@;
    let ghost terrain_water = terrain_result.spec_water();
    let water_features = terrain_result.into_water_features();
    // slice the tiles
    let tile_count: usize = rows * cols;
    proof {
        assert(tile_size * tile_size <= 0xFFFF_FFFFusize) by (nonlinear_arith)
            requires
                tile_size <= 65535,
        ;
    }
    let tlen: usize = tile_size * tile_size;
    let mut tiles: Vec<HeightField> = Vec::new();
    let mut t: usize = 0;
    while t < tile_count
        invariant
            t <= tile_count,
            tile_count == rows * cols,
            1 <= cols,
            1 <= rows,
            1 <= inner,
            2 * overlap < tile_size,
            inner == tile_size - 2 * overlap,
            tile_size <= MAX_SIZE,
            tlen == tile_size * tile_size,
            rows * inner <= MAX_SIZE,
            cols * inner <= MAX_SIZE,
            1 <= asize <= MAX_SIZE,
            atlas_hf.wf(),
            atlas_hf.spec_size() == asize,
            src == atlas_hf@,
            tiles@.len() == t,
            forall|q: int|
                0 <= q < t ==> (#[trigger] tiles@[q]).wf() && tiles@[q].spec_size() == tile_size,
            forall|q: int, x: int, y: int|
                0 <= q < t && 0 <= x < tile_size && 0 <= y < tile_size ==> #[trigger] at(
                    tiles@[q]@,
                    tile_size as int,
                    x,
                    y,
                ) == {
                    let sx = (q % (cols as int)) * (inner as int) + x;
                    let sy = (q / (cols as int)) * (inner as int) + y;
                    if sx < asize && sy < asize {
                        at(src, asize as int, sx, sy)
                    } else {
                        0i64
                    }
                },
        decreases tile_count - t,
    {
        let c: usize = t % cols;
        let rr: usize = t / cols;
        proof {
            vstd::arithmetic::div_mod::lemma_fundamental_div_mod(t as int, cols as int);
            assert((t as int) / (cols as int) < rows) by (nonlinear_arith)
                requires
                    (t as int) < (rows as int) * (cols as int),
                    0 < cols as int,
                    (cols as int) * ((t as int) / (cols as int)) + (t as int) % (cols as int)
                        == t as int,
                    0 <= (t as int) % (cols as int) < cols as int,
            ;
            assert((c as int) * (inner as int) + (inner as int) <= (cols as int) * (inner as int)
                && (rr as int) * (inner as int) + (inner as int) <= (rows as int) * (
            inner as int)) by (nonlinear_arith)
                requires
                    0 <= c as int <= (cols as int) - 1,
                    0 <= rr as int <= (rows as int) - 1,
                    inner as int >= 1,
            ;
        }
        let src_x: usize = c * inner;
        let src_y: usize = rr * inner;
        let mut cells: Vec<i64> = Vec::new();
        let mut k: usize = 0;
        while k < tlen
            invariant
                k <= tlen,
                tlen == tile_size * tile_size,
                1 <= tile_size <= MAX_SIZE,
                1 <= asize <= MAX_SIZE,
                atlas_hf.wf(),
                atlas_hf.spec_size() == asize,
                src == atlas_hf@,
                src_x == c * inner,
                src_y == rr * inner,
                src_x + tile_size <= 2 * MAX_SIZE,
                src_y + tile_size <= 2 * MAX_SIZE,
                cells@.len() == k,
                forall|q: int|
                    0 <= q < k ==> #[trigger] cells@[q] == {
                        let sx = (src_x as int) + q % (tile_size as int);
                        let sy = (src_y as int) + q / (tile_size as int);
                        if sx < asize && sy < asize {
                            at(src, asize as int, sx, sy)
                        } else {
                            0i64
                        }
                    } && fx_valid(cells@[q]),
            decreases tlen - k,
        {
            let x: usize = k % tile_size;
            let y: usize = k / tile_size;
            proof {
                vstd::arithmetic::div_mod::lemma_fundamental_div_mod(k as int, tile_size as int);
                assert((k as int) / (tile_size as int) < tile_size) by (nonlinear_arith)
                    requires
                        (k as int) < (tile_size as int) * (tile_size as int),
                        0 < tile_size as int,
                        (tile_size as int) * ((k as int) / (tile_size as int)) + (k as int) % (
                        tile_size as int) == k as int,
                        0 <= (k as int) % (tile_size as int) < tile_size as int,
                ;
            }
            let sx: usize = src_x + x;
            let sy: usize = src_y + y;
            let v: i64 = if sx < asize && sy < asize {
                proof {
                    assert(sy * asize + sx < asize * asize && asize * asize <= 0xFFFF_FFFFusize)
                        by (nonlinear_arith)
                        requires
                            sx < asize,
                            sy < asize,
                            asize <= 65535,
                    ;
                }
                atlas_hf.cells()[sy * asize + sx]
            } else {
                0
            };
            cells.push(v);
            k = k + 1;
        }
        let tile = HeightField::from_cells(tile_size, cells);
        tiles.push(tile);
        proof {
            assert forall|x: int, y: int|
                0 <= x < tile_size && 0 <= y < tile_size implies #[trigger] at(
                tiles@[t as int]@,
                tile_size as int,
                x,
                y,
            ) == {
                let sx = ((t as int) % (cols as int)) * (inner as int) + x;
                let sy = ((t as int) / (cols as int)) * (inner as int) + y;
                if sx < asize && sy < asize {
                    at(src, asize as int, sx, sy)
                } else {
                    0i64
                }
            } by {
                let q = y * (tile_size as int) + x;
                assert(0 <= q < (tile_size as int) * (tile_size as int)) by (nonlinear_arith)
                    requires
                        0 <= x < tile_size as int,
                        0 <= y < tile_size as int,
                        q == y * (tile_size as int) + x,
                ;
                vstd::arithmetic::div_mod::lemma_fundamental_div_mod_converse(
                    q,
                    tile_size as int,
                    y,
                    x,
                );
            }
        }
        t = t + 1;
    }
    // pack the atlas crop
    proof {
        assert(aw * ah <= 0xFFFF_FFFFusize) by (nonlinear_arith)
            requires
                aw <= 65535,
                ah <= 65535,
        ;
    }
    let alen: usize = aw * ah;
    let mut atlas: Vec<i64> = Vec::new();
    let mut k2: usize = 0;
    while k2 < alen
        invariant
            k2 <= alen,
            alen == aw * ah,
            1 <= aw <= MAX_SIZE,
            1 <= ah <= MAX_SIZE,
            aw <= asize,
            ah <= asize,
            1 <= asize <= MAX_SIZE,
            atlas_hf.wf(),
            atlas_hf.spec_size() == asize,
            src == atlas_hf@,
            atlas@.len() == k2,
            forall|q: int|
                0 <= q < k2 ==> #[trigger] atlas@[q] == at(
                    src,
                    asize as int,
                    q % (aw as int),
                    q / (aw as int),
                ),
        decreases alen - k2,
    {
        let x: usize = k2 % aw;
        let y: usize = k2 / aw;
        proof {
            vstd::arithmetic::div_mod::lemma_fundamental_div_mod(k2 as int, aw as int);
            assert((k2 as int) / (aw as int) < ah) by (nonlinear_arith)
                requires
                    (k2 as int) < (aw as int) * (ah as int),
                    0 < aw as int,
                    (aw as int) * ((k2 as int) / (aw as int)) + (k2 as int) % (aw as int)
                        == k2 as int,
                    0 <= (k2 as int) % (aw as int) < aw as int,
            ;
        }
        let v = atlas_hf.get(x, y);
        proof {
            assert(crate::height_field::clampc(asize as int, x as int) == x as int);
            assert(crate::height_field::clampc(asize as int, y as int) == y as int);
        }
        atlas.push(v);
        k2 = k2 + 1;
    }
    // UV rectangles
    let mut rects: Vec<UvRect> = Vec::new();
    let mut k3: usize = 0;
    while k3 < tile_count
        invariant
            k3 <= tile_count,
            tile_count == rows * cols,
            1 <= cols,
            1 <= rows,
            1 <= inner,
            1 <= aw <= MAX_SIZE,
            1 <= ah <= MAX_SIZE,
            aw == cols * inner,
            ah == rows * inner,
            rects@.len() == k3,
            forall|q: int|
                0 <= q < k3 ==> #[trigger] rects@[q] == rect_spec(
                    q / (cols as int),
                    q % (cols as int),
                    inner as int,
                    aw as int,
                    ah as int,
                ),
        decreases tile_count - k3,
    {
        let c: usize = k3 % cols;
        let rr: usize = k3 / cols;
        proof {
            vstd::arithmetic::div_mod::lemma_fundamental_div_mod(k3 as int, cols as int);
            assert((k3 as int) / (cols as int) < rows) by (nonlinear_arith)
                requires
                    (k3 as int) < (rows as int) * (cols as int),
                    0 < cols as int,
                    (cols as int) * ((k3 as int) / (cols as int)) + (k3 as int) % (cols as int)
                        == k3 as int,
                    0 <= (k3 as int) % (cols as int) < cols as int,
            ;
            assert((c as int) * (inner as int) <= (cols as int) * (inner as int) && ((c as int)
                + 1) * (inner as int) <= (cols as int) * (inner as int) && ((rr as int) + 1) * (
            inner as int) <= (rows as int) * (inner as int) && (rr as int) * (inner as int) <= (
            rows as int) * (inner as int) && 0 <= (c as int) * (inner as int) && 0 <= (rr as int)
                * (inner as int)) by (nonlinear_arith)
                requires
                    0 <= c as int <= (cols as int) - 1,
                    0 <= rr as int <= (rows as int) - 1,
                    inner as int >= 1,
            ;
        }
        let rect = UvRect {
            u0: uv_frac_ex(c * inner, aw),
            v0: uv_frac_ex(rr * inner, ah),
            u1: uv_frac_ex((c + 1) * inner, aw),
            v1: uv_frac_ex((rr + 1) * inner, ah),
        };
        rects.push(rect);
        k3 = k3 + 1;
    }
    let out = TileGrid {
        tiles,
        inner_size: inner,
        atlas,
        atlas_w: aw,
        atlas_h: ah,
        rects,
        water_features,
    };
    proof {
        assert forall|x: int, y: int|
            0 <= x < out.spec_aw() && 0 <= y < out.spec_ah() implies #[trigger] out.spec_atlas()[y
            * out.spec_aw() + x] == at(src, asize as int, x, y) by {
            let q = y * (aw as int) + x;
            assert(0 <= q < (aw as int) * (ah as int)) by (nonlinear_arith)
                requires
                    0 <= x < aw as int,
                    0 <= y < ah as int,
                    q == y * (aw as int) + x,
            ;
            vstd::arithmetic::div_mod::lemma_fundamental_div_mod_converse(q, aw as int, y, x);
        }
        assert(tile_grid_consistent(out, cols as int, tile_size as int, src));
        let stp = tile_steps_spec(
            base_size as int,
            atlas_side_spec(rows as int, cols as int, tile_size - 2 * overlap),
        );
        assert(src == resample_grid_spec(
            finished_view,
            final_size_spec(base_size as int, stp),
            atlas_side_spec(rows as int, cols as int, tile_size - 2 * overlap),
        ));
        if erosion_years <= 0 {
            assert(finished_view == terrain_grid_spec(base_size as int, stp, seed, biome_type));
        }
        if erosion_years > 0 {
            assert(out.spec_water().unwrap() == terrain_water.unwrap());
            assert(tile_grid_consistent(
                out,
                cols as int,
                tile_size as int,
                resample_grid_spec(
                    finished_view,
                    final_size_spec(base_size as int, stp),
                    atlas_side_spec(rows as int, cols as int, tile_size - 2 * overlap),
                ),
            ));
        }
    }
    out
}

/// A fraction of an extent as a scalar; never past full extent when the
/// numerator is within it.
fn uv_frac_ex(num: usize, den: usize) -> (r: i64)
    requires
        1 <= den <= MAX_SIZE,
        num <= den,
    ensures
        r == uv_frac(num as int, den as int),
        0 <= r <= SCALE,
{
    proof {
        assert((num as int) * SCALE <= (den as int) * SCALE && 0 <= (num as int) * SCALE) by (
        nonlinear_arith)
            requires
                0 <= num as int <= den as int,
                SCALE as int > 0,
        ;
        vstd::arithmetic::div_mod::lemma_div_is_ordered(
            (num as int) * SCALE,
            (den as int) * SCALE,
            den as int,
        );
        assert((den as int) * SCALE == (SCALE as int) * (den as int)) by (nonlinear_arith);
        vstd::arithmetic::div_mod::lemma_div_by_multiple(SCALE as int, den as int);
        vstd::arithmetic::div_mod::lemma_div_pos_is_pos((num as int) * SCALE, den as int);
    }
    let q: u128 = ((num as u128) * (SCALE as u128)) / (den as u128);
    q as i64
}

} // verus!
