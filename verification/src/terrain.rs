//! The terrain orchestrator: progressive-resolution synthesis (resample,
//! noise, filters per step), ridge sharpening, and an optional geological
//! erosion run that yields water features.

use vstd::prelude::*;

verus! {

use crate::MAX_SIZE;
use crate::biomes::BiomeParams;
use crate::biomes::BiomeType;
use crate::erosion::ErosionParams;
use crate::erosion::FAST_PATH_YEARS;
use crate::erosion::apply_geological_erosion;
use crate::erosion::fast_water_params;
use crate::erosion::main_water_params;
use crate::filters::apply_dunes;
use crate::filters::apply_ridge_sharpen;
use crate::filters::apply_slope_blur;
use crate::fixed::SCALE;
use crate::fixed::fx_mul;
use crate::fixed::fx_valid;
use crate::height_field::HeightField;
use crate::noise::apply_fbm;
use crate::water_system::WaterFeatures;
use crate::water_system::water_system_rel;
use vstd::arithmetic::power2::pow2;

/// Thermal cycle count of a biome's erosion run, in scalar units.
pub open spec fn temperature_cycles_spec(b: BiomeType) -> i64 {
    match b {
        BiomeType::Alpine => 50_000_000,
        BiomeType::Desert => 10_000_000,
        BiomeType::Temperate => 25_000_000,
    }
}

/// The erosion parameters a generation run builds: wind strength is half
/// the biome's noise amplitude, rain is fixed at full intensity, and the
/// thermal cycle count is the biome's.
pub open spec fn erosion_params_spec(b: BiomeType, sea_level: i64, erosion_years: i64) -> ErosionParams {
    ErosionParams {
        time_years: erosion_years,
        sea_level,
        wind_strength: crate::fixed::fx_mul_spec(crate::biomes::fbm_params_spec(b).amplitude, 500_000),
        rain_intensity: SCALE,
        temperature_cycles: temperature_cycles_spec(b),
    }
}

/// Side length of the finished grid for a base size and step count.
pub open spec fn final_size_spec(base: int, steps: nat) -> int {
    if steps == 0 {
        base
    } else {
        base * pow2((steps - 1) as nat)
    }
}

/// An all-zero grid of the given cell count.
pub open spec fn zeros_grid(len: nat) -> Seq<i64> {
    Seq::new(len, |i: int| 0i64)
}

/// The grid after synthesis step `step`: resample up to the step's target
/// side, stamp FBM noise, blur by slope, and overlay dunes for dune biomes
/// at resolution 256 and up.
pub open spec fn synth_step_spec(
    s: Seq<i64>,
    base: int,
    seed: u32,
    b: BiomeType,
    step: nat,
) -> Seq<i64> {
    let n = base * pow2(step);
    let g1 = crate::height_field::resample_grid_spec(s, final_size_spec(base, step), n);
    let g2 = crate::noise::fbm_grid_spec(g1, n, crate::biomes::fbm_params_spec(b), seed);
    let bp = crate::biomes::slope_blur_params_spec(b);
    let g3 = crate::filters::blur_iter_spec(g2, n, bp, bp.iterations as nat);
    if b == BiomeType::Desert && n >= 256 {
        crate::filters::dune_grid_spec(g3, n, crate::biomes::dunes_params_spec(b))
    } else {
        g3
    }
}

/// The grid after the first `k` synthesis steps, from a zero base grid.
pub open spec fn synth_after_spec(base: int, seed: u32, b: BiomeType, k: nat) -> Seq<i64>
    decreases k,
{
    if k == 0 {
        zeros_grid((base * base) as nat)
    } else {
        synth_step_spec(synth_after_spec(base, seed, b, (k - 1) as nat), base, seed, b, (
        k - 1) as nat)
    }
}

/// The finished synthesized grid: all steps, then one ridge sharpen. The
/// whole synthesis is a pure function of its four inputs.
pub open spec fn terrain_grid_spec(base: int, steps: nat, seed: u32, b: BiomeType) -> Seq<i64> {
    crate::filters::ridge_grid_spec(
        synth_after_spec(base, seed, b, steps),
        final_size_spec(base, steps),
        crate::biomes::ridge_sharpen_strength_spec(b),
    )
}

/// The synthesized grid always has the side the step count dictates.
pub proof fn lemma_synth_after_len(base: int, seed: u32, b: BiomeType, k: nat)
    requires
        base >= 1,
    ensures
        synth_after_spec(base, seed, b, k).len() == final_size_spec(base, k) * final_size_spec(
            base,
            k,
        ),
    decreases k,
{
    if k == 0 {
    } else {
        lemma_synth_after_len(base, seed, b, (k - 1) as nat);
        let s = synth_after_spec(base, seed, b, (k - 1) as nat);
        let n = base * pow2((k - 1) as nat);
        let g1 = crate::height_field::resample_grid_spec(s, final_size_spec(base, (k - 1) as nat), n);
        assert(g1.len() == n * n) by {
            if final_size_spec(base, (k - 1) as nat) != n {
            } else {
                assert(s.len() == n * n);
            }
        }
        let g2 = crate::noise::fbm_grid_spec(g1, n, crate::biomes::fbm_params_spec(b), seed);
        let bp = crate::biomes::slope_blur_params_spec(b);
        crate::filters::lemma_blur_iter_len(g2, n, bp, bp.iterations as nat);
    }
}

/// The finished synthesis spec has exactly `final_size_spec` squared cells.
pub proof fn lemma_terrain_grid_len(base: int, steps: nat, seed: u32, b: BiomeType)
    requires
        base >= 1,
    ensures
        terrain_grid_spec(base, steps, seed, b).len() == final_size_spec(base, steps)
            * final_size_spec(base, steps),
{
    lemma_synth_after_len(base, seed, b, steps);
}

/// Two generation results obtained from identical arguments agree on the
/// finished grid, and on every water grid when erosion ran: without
/// erosion the grid equals the pure synthesis spec outright; a sub-ten-
/// year run is one water-system evaluation of that spec, whose outcome
/// the flow routing law pins; and a long run's chain is deterministic
/// link by link. The requires are exactly what two `generate_terrain`
/// calls with the same arguments ensure.
pub proof fn lemma_generate_terrain_deterministic(
    base: int,
    steps: nat,
    seed: u32,
    b: BiomeType,
    sea: i64,
    years: i64,
    r1: TerrainGenerationResult,
    r2: TerrainGenerationResult,
)
    requires
        base >= 1,
        r1.spec_size() == final_size_spec(base, steps),
        r2.spec_size() == final_size_spec(base, steps),
        years <= 0 ==> r1.field_view() == terrain_grid_spec(base, steps, seed, b) && r2.field_view()
            == terrain_grid_spec(base, steps, seed, b),
        (r1.spec_water() is Some) <==> years > 0,
        (r2.spec_water() is Some) <==> years > 0,
        years > 0 && years < FAST_PATH_YEARS ==> water_system_rel(
            terrain_grid_spec(base, steps, seed, b),
            final_size_spec(base, steps),
            fast_water_params(sea),
            r1.field_view(),
            r1.spec_water().unwrap(),
        ) && water_system_rel(
            terrain_grid_spec(base, steps, seed, b),
            final_size_spec(base, steps),
            fast_water_params(sea),
            r2.field_view(),
            r2.spec_water().unwrap(),
        ),
        years >= FAST_PATH_YEARS ==> crate::erosion::geo_main_rel(
            terrain_grid_spec(base, steps, seed, b),
            final_size_spec(base, steps),
            erosion_params_spec(b, sea, years),
            r1.field_view(),
            r1.spec_water().unwrap(),
        ) && crate::erosion::geo_main_rel(
            terrain_grid_spec(base, steps, seed, b),
            final_size_spec(base, steps),
            erosion_params_spec(b, sea, years),
            r2.field_view(),
            r2.spec_water().unwrap(),
        ),
    ensures
        r1.field_view() == r2.field_view(),
        years > 0 ==> {
            &&& r1.spec_water().unwrap().flow() == r2.spec_water().unwrap().flow()
            &&& r1.spec_water().unwrap().river() == r2.spec_water().unwrap().river()
            &&& r1.spec_water().unwrap().beach() == r2.spec_water().unwrap().beach()
            &&& r1.spec_water().unwrap().water() == r2.spec_water().unwrap().water()
        },
{
    let g0 = terrain_grid_spec(base, steps, seed, b);
    let n = final_size_spec(base, steps);
    lemma_terrain_grid_len(base, steps, seed, b);
    vstd::arithmetic::power2::lemma_pow2_pos((steps - 1) as nat);
    assert(n >= 0) by (nonlinear_arith)
        requires
            base >= 1,
            steps == 0 ==> n == base,
            steps > 0 ==> n == base * pow2((steps - 1) as nat),
            pow2((steps - 1) as nat) >= 1,
    ;
    if years > 0 && years < FAST_PATH_YEARS {
        crate::water_system::lemma_water_system_deterministic(
            g0,
            n,
            fast_water_params(sea),
            r1.field_view(),
            r1.spec_water().unwrap(),
            r2.field_view(),
            r2.spec_water().unwrap(),
        );
        assert(r1.field_view() =~= r2.field_view());
    }
    if years >= FAST_PATH_YEARS {
        crate::erosion::lemma_geo_main_deterministic(
            g0,
            n,
            erosion_params_spec(b, sea, years),
            r1.field_view(),
            r1.spec_water().unwrap(),
            r2.field_view(),
            r2.spec_water().unwrap(),
        );
        assert(r1.field_view() =~= r2.field_view());
    }
}

/// A finished grid together with the water features of its erosion run
/// (absent when no erosion was requested).
pub struct TerrainGenerationResult {
    height_field: HeightField,
    water_features: Option<WaterFeatures>,
}

impl TerrainGenerationResult {
    pub closed spec fn spec_field(&self) -> HeightField {
        self.height_field
    }

    pub open spec fn field_view(&self) -> Seq<i64> {
        self.spec_field()@
    }

    pub open spec fn spec_size(&self) -> int {
        self.spec_field().spec_size()
    }

    pub closed spec fn spec_water(&self) -> Option<WaterFeatures> {
        self.water_features
    }

    pub open spec fn wf(&self) -> bool {
        &&& self.spec_field().wf()
        &&& match self.spec_water() {
            Some(w) => w.wf() && w.spec_size() == self.spec_size(),
            None => true,
        }
    }

    /// A copy of the finished grid.
    pub fn height_field(&self) -> (r: HeightField)
        requires
            self.wf(),
        ensures
            r.wf(),
            r@ == self.field_view(),
            r.spec_size() == self.spec_size(),
    {
        self.height_field.clone_field()
    }

    /// The water features themselves, surrendering the result.
    pub fn into_water_features(self) -> (r: Option<WaterFeatures>)
        ensures
            r == self.spec_water(),
    {
        self.water_features
    }

    /// A copy of the water features, when erosion produced them.
    pub fn water_features(&self) -> (r: Option<WaterFeatures>)
        requires
            self.wf(),
        ensures
            r is Some <==> self.spec_water() is Some,
            r is Some ==> {
                &&& r.unwrap().wf()
                &&& r.unwrap().spec_size() == self.spec_water().unwrap().spec_size()
                &&& r.unwrap().water() == self.spec_water().unwrap().water()
                &&& r.unwrap().river() == self.spec_water().unwrap().river()
                &&& r.unwrap().beach() == self.spec_water().unwrap().beach()
                &&& r.unwrap().flow() == self.spec_water().unwrap().flow()
            },
    {
        match &self.water_features {
            Some(w) => Some(w.clone_features()),
            None => None,
        }
    }
}

/// Generate a finished terrain. Starting from a zero grid of side
/// `base_size`, each step resamples up to the step's target resolution,
/// stamps biome-parameterized FBM noise, blurs by slope, and (for dune
/// biomes at resolution 256 and up) overlays dunes; after the steps the
/// ridges are sharpened once. A positive `erosion_years` then runs the
/// geological simulator, whose water features are returned; otherwise no
/// water features exist.
pub fn generate_terrain(
    base_size: usize,
    steps: u32,
    seed: u32,
    biome_type: BiomeType,
    sea_level: i64,
    erosion_years: i64,
) -> (r: TerrainGenerationResult)
    requires
        1 <= base_size,
        base_size * pow2(steps as nat) <= MAX_SIZE,
        fx_valid(sea_level),
        fx_valid(erosion_years),
    ensures
        r.wf(),
        r.spec_size() == final_size_spec(base_size as int, steps as nat),
        (r.spec_water() is Some) <==> erosion_years > 0,
        erosion_years <= 0 ==> r.field_view() == terrain_grid_spec(
            base_size as int,
            steps as nat,
            seed,
            biome_type,
        ),
        erosion_years > 0 && erosion_years < FAST_PATH_YEARS ==> water_system_rel(
            terrain_grid_spec(base_size as int, steps as nat, seed, biome_type),
            r.spec_size(),
            fast_water_params(sea_level),
            r.field_view(),
            r.spec_water().unwrap(),
        ),
        erosion_years >= FAST_PATH_YEARS ==> exists|g: Seq<i64>|
            water_system_rel(
                g,
                r.spec_size(),
                main_water_params(sea_level),
                r.field_view(),
                r.spec_water().unwrap(),
            ),
        erosion_years >= FAST_PATH_YEARS ==> crate::erosion::geo_main_rel(
            terrain_grid_spec(base_size as int, steps as nat, seed, biome_type),
            r.spec_size(),
            erosion_params_spec(biome_type, sea_level, erosion_years),
            r.field_view(),
            r.spec_water().unwrap(),
        ),
{
    let biome_params = BiomeParams::for_biome(biome_type);
    proof {
        assert(pow2(0) == 1) by {
            vstd::arithmetic::power2::lemma2_to64();
        }
        lemma_size_monotone(base_size as int, 0, steps as nat);
        assert(base_size * pow2(0) == base_size) by (nonlinear_arith)
            requires
                pow2(0) == 1,
        ;
    }
    let mut height_field = HeightField::new(base_size);
    proof {
        assert(height_field@ =~= zeros_grid((base_size * base_size) as nat));
    }
    let mut current_size: usize = base_size;
    let mut step: u32 = 0;
    while step < steps
        invariant
            step <= steps,
            1 <= base_size,
            base_size * pow2(steps as nat) <= MAX_SIZE,
            current_size == base_size * pow2(step as nat),
            1 <= current_size <= MAX_SIZE,
            height_field.wf(),
            height_field.spec_size() == final_size_spec(base_size as int, step as nat),
            1 <= height_field.spec_size() <= MAX_SIZE,
            biome_params.spec_biome() == biome_type,
            height_field@ == synth_after_spec(base_size as int, seed, biome_type, step as nat),
        decreases steps - step,
    {
        let ghost prev = height_field@;
        proof {
            lemma_size_monotone(base_size as int, step as nat, steps as nat);
            assert(pow2(0) == 1) by {
                vstd::arithmetic::power2::lemma2_to64();
            }
            if step > 0 {
                vstd::arithmetic::power2::lemma_pow2_strictly_increases(0, step as nat);
                assert(base_size * pow2(step as nat) > base_size) by (nonlinear_arith)
                    requires
                        base_size >= 1,
                        pow2(step as nat) > 1,
                ;
            } else {
                assert(base_size * pow2(step as nat) == base_size) by (nonlinear_arith)
                    requires
                        pow2(step as nat) == 1,
                ;
            }
        }
        if current_size > base_size {
            height_field = height_field.resample_to(current_size);
        }
        proof {
            assert(height_field@ == crate::height_field::resample_grid_spec(
                prev,
                final_size_spec(base_size as int, step as nat),
                base_size as int * pow2(step as nat),
            ));
        }
        apply_fbm(&mut height_field, &biome_params.fbm_params(), seed);
        apply_slope_blur(&mut height_field, &biome_params.slope_blur_params());
        if biome_params.has_dunes() && current_size >= 256 {
            apply_dunes(&mut height_field, &biome_params.dunes_params());
        }
        proof {
            assert(height_field@ == synth_step_spec(
                prev,
                base_size as int,
                seed,
                biome_type,
                step as nat,
            ));
            vstd::arithmetic::power2::lemma_pow2_unfold((step + 1) as nat);
            assert(base_size * (2 * pow2(step as nat)) == 2 * (base_size * pow2(step as nat))) by (
            nonlinear_arith);
            lemma_size_monotone(base_size as int, (step + 1) as nat, steps as nat);
        }
        current_size = current_size * 2;
        step = step + 1;
    }
    apply_ridge_sharpen(&mut height_field, biome_params.ridge_sharpen_strength());
    proof {
        assert(height_field@ == terrain_grid_spec(
            base_size as int,
            steps as nat,
            seed,
            biome_type,
        ));
    }
    let ghost synthesized = height_field@;
    let ghost mut gw1: Seq<i64> = Seq::empty();
    let water_features: Option<WaterFeatures> = if erosion_years > 0 {
        let erosion_params = ErosionParams {
            time_years: erosion_years,
            sea_level,
            wind_strength: fx_mul(biome_params.fbm_params().amplitude, 500_000),
            rain_intensity: SCALE,
            temperature_cycles: match biome_type {
                BiomeType::Alpine => 50_000_000,
                BiomeType::Desert => 10_000_000,
                BiomeType::Temperate => 25_000_000,
            },
        };
        let out = apply_geological_erosion(&mut height_field, &erosion_params);
        proof {
            assert(erosion_params == erosion_params_spec(biome_type, sea_level, erosion_years));
            if erosion_years >= FAST_PATH_YEARS {
                gw1 = choose|g: Seq<i64>|
                    water_system_rel(
                        g,
                        height_field.spec_size(),
                        main_water_params(sea_level),
                        height_field@,
                        out,
                    );
            }
        }
        Some(out)
    } else {
        None
    };
    let result = TerrainGenerationResult { height_field, water_features };
    proof {
        if erosion_years > 0 && erosion_years < FAST_PATH_YEARS {
            assert(water_system_rel(
                synthesized,
                result.spec_size(),
                fast_water_params(sea_level),
                result.field_view(),
                result.spec_water().unwrap(),
            ));
        }
        if erosion_years >= FAST_PATH_YEARS {
            assert(water_system_rel(
                gw1,
                result.spec_size(),
                main_water_params(sea_level),
                result.field_view(),
                result.spec_water().unwrap(),
            ));
            assert(crate::erosion::geo_main_rel(
                terrain_grid_spec(base_size as int, steps as nat, seed, biome_type),
                result.spec_size(),
                erosion_params_spec(biome_type, sea_level, erosion_years),
                result.field_view(),
                result.spec_water().unwrap(),
            ));
        }
    }
    result
}

/// For `e1 <= e2`, `base * 2^e1 <= base * 2^e2`.
proof fn lemma_size_monotone(base: int, e1: nat, e2: nat)
    requires
        base >= 1,
        e1 <= e2,
    ensures
        base * pow2(e1) <= base * pow2(e2),
        pow2(e1) >= 1,
{
    vstd::arithmetic::power2::lemma_pow2_pos(e1);
    vstd::arithmetic::power2::lemma_pow2_pos(e2);
    if e1 < e2 {
        vstd::arithmetic::power2::lemma_pow2_strictly_increases(e1, e2);
    }
    assert(base * pow2(e1) <= base * pow2(e2)) by (nonlinear_arith)
        requires
            base >= 1,
            pow2(e1) <= pow2(e2),
    ;
}

} // verus!
