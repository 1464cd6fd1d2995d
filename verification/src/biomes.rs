//! The biome table: a pure function from the closed set of biome kinds to
//! the parameter groups every other component consumes. Nothing here is
//! loaded or mutated at run time.

use vstd::prelude::*;

verus! {

use crate::filters::DuneParams;
use crate::filters::MAX_RADIUS;
use crate::filters::SlopeBlurParams;
use crate::fixed::SCALE;
use crate::fixed::fx_valid;
use crate::noise::FBMParams;

/// The closed set of biome kinds.
#[derive(Clone, Copy, PartialEq, Eq, Structural, Debug)]
pub enum BiomeType {
    Desert,
    Alpine,
    Temperate,
}

/// Noise parameters of a biome.
pub open spec fn fbm_params_spec(b: BiomeType) -> FBMParams {
    match b {
        BiomeType::Desert => FBMParams {
            amplitude: 150_000,
            frequency: 2_000_000,
            octaves: 5,
            lacunarity: 2_000_000,
            gain: 500_000,
            warp: 150_000,
            seed: 0,
        },
        BiomeType::Alpine => FBMParams {
            amplitude: 350_000,
            frequency: 1_300_000,
            octaves: 6,
            lacunarity: 2_000_000,
            gain: 500_000,
            warp: 120_000,
            seed: 0,
        },
        BiomeType::Temperate => FBMParams {
            amplitude: 220_000,
            frequency: 1_600_000,
            octaves: 5,
            lacunarity: 2_000_000,
            gain: 500_000,
            warp: 100_000,
            seed: 0,
        },
    }
}

/// Slope-blur parameters of a biome.
pub open spec fn slope_blur_params_spec(b: BiomeType) -> SlopeBlurParams {
    match b {
        BiomeType::Desert => SlopeBlurParams { radius: 2_000_000, k: 600_000, iterations: 2 },
        BiomeType::Alpine => SlopeBlurParams { radius: 1_000_000, k: 200_000, iterations: 1 },
        BiomeType::Temperate => SlopeBlurParams { radius: 2_000_000, k: 400_000, iterations: 2 },
    }
}

/// Ridge-sharpen strength of a biome.
pub open spec fn ridge_sharpen_strength_spec(b: BiomeType) -> i64 {
    match b {
        BiomeType::Desert => 200_000,
        BiomeType::Alpine => 600_000,
        BiomeType::Temperate => 350_000,
    }
}

/// Dune parameters of a biome; the desert ripples point along the grid
/// diagonal (an eighth of a turn).
pub open spec fn dunes_params_spec(b: BiomeType) -> DuneParams {
    match b {
        BiomeType::Desert => DuneParams {
            scale: 16_000_000,
            amplitude: 30_000,
            dir_x: 707_107,
            dir_y: 707_107,
        },
        _ => DuneParams { scale: 0, amplitude: 0, dir_x: SCALE, dir_y: 0 },
    }
}

/// Vertical height scale of a biome, in scalar units.
pub open spec fn height_scale_spec(b: BiomeType) -> i64 {
    match b {
        BiomeType::Desert => 600_000_000,
        BiomeType::Alpine => 1_800_000_000,
        BiomeType::Temperate => 900_000_000,
    }
}

/// Sea-level offset of a biome.
pub open spec fn sea_level_offset_spec(b: BiomeType) -> i64 {
    match b {
        BiomeType::Desert => 100_000,
        BiomeType::Alpine => 50_000,
        BiomeType::Temperate => 80_000,
    }
}

/// Normalized-flow threshold above which a cell is a river.
pub open spec fn river_threshold_spec(b: BiomeType) -> i64 {
    match b {
        BiomeType::Desert => 200_000,
        BiomeType::Alpine => 150_000,
        BiomeType::Temperate => 120_000,
    }
}

/// River width of a biome, in cells (scalar units).
pub open spec fn river_width_spec(b: BiomeType) -> i64 {
    match b {
        BiomeType::Desert => 2_000_000,
        BiomeType::Alpine => 1_500_000,
        BiomeType::Temperate => 3_000_000,
    }
}

/// River carve depth of a biome.
pub open spec fn river_depth_spec(b: BiomeType) -> i64 {
    match b {
        BiomeType::Desert => 30_000,
        BiomeType::Alpine => 40_000,
        BiomeType::Temperate => 25_000,
    }
}

/// Coastal erosion rate of a biome.
pub open spec fn coastal_erosion_spec(b: BiomeType) -> i64 {
    match b {
        BiomeType::Desert => 50_000,
        BiomeType::Alpine => 30_000,
        BiomeType::Temperate => 40_000,
    }
}

/// Beach width of a biome, in cells (scalar units).
pub open spec fn beach_width_spec(b: BiomeType) -> i64 {
    match b {
        BiomeType::Desert => 8_000_000,
        BiomeType::Alpine => 6_000_000,
        BiomeType::Temperate => 10_000_000,
    }
}

/// Accessor bundle for one biome kind.
pub struct BiomeParams {
    biome_type: BiomeType,
}

impl BiomeParams {
    /// The biome this bundle describes.
    pub closed spec fn spec_biome(&self) -> BiomeType {
        self.biome_type
    }

    pub fn new(biome_type: BiomeType) -> (r: BiomeParams)
        ensures
            r.spec_biome() == biome_type,
    {
        BiomeParams { biome_type }
    }

    pub fn for_biome(biome_type: BiomeType) -> (r: BiomeParams)
        ensures
            r.spec_biome() == biome_type,
    {
        BiomeParams { biome_type }
    }

    pub fn fbm_params(&self) -> (r: FBMParams)
        ensures
            r == fbm_params_spec(self.spec_biome()),
            r.wf(),
    {
        match self.biome_type {
            BiomeType::Desert => FBMParams {
                amplitude: 150_000,
                frequency: 2_000_000,
                octaves: 5,
                lacunarity: 2_000_000,
                gain: 500_000,
                warp: 150_000,
                seed: 0,
            },
            BiomeType::Alpine => FBMParams {
                amplitude: 350_000,
                frequency: 1_300_000,
                octaves: 6,
                lacunarity: 2_000_000,
                gain: 500_000,
                warp: 120_000,
                seed: 0,
            },
            BiomeType::Temperate => FBMParams {
                amplitude: 220_000,
                frequency: 1_600_000,
                octaves: 5,
                lacunarity: 2_000_000,
                gain: 500_000,
                warp: 100_000,
                seed: 0,
            },
        }
    }

    pub fn slope_blur_params(&self) -> (r: SlopeBlurParams)
        ensures
            r == slope_blur_params_spec(self.spec_biome()),
            r.wf(),
    {
        match self.biome_type {
            BiomeType::Desert => SlopeBlurParams { radius: 2_000_000, k: 600_000, iterations: 2 },
            BiomeType::Alpine => SlopeBlurParams { radius: 1_000_000, k: 200_000, iterations: 1 },
            BiomeType::Temperate => SlopeBlurParams {
                radius: 2_000_000,
                k: 400_000,
                iterations: 2,
            },
        }
    }

    pub fn ridge_sharpen_strength(&self) -> (r: i64)
        ensures
            r == ridge_sharpen_strength_spec(self.spec_biome()),
            fx_valid(r),
    {
        match self.biome_type {
            BiomeType::Desert => 200_000,
            BiomeType::Alpine => 600_000,
            BiomeType::Temperate => 350_000,
        }
    }

    pub fn has_dunes(&self) -> (r: bool)
        ensures
            r == (self.spec_biome() == BiomeType::Desert),
    {
        matches!(self.biome_type, BiomeType::Desert)
    }

    pub fn dunes_params(&self) -> (r: DuneParams)
        ensures
            r == dunes_params_spec(self.spec_biome()),
            r.wf(),
    {
        match self.biome_type {
            BiomeType::Desert => DuneParams {
                scale: 16_000_000,
                amplitude: 30_000,
                dir_x: 707_107,
                dir_y: 707_107,
            },
            _ => DuneParams { scale: 0, amplitude: 0, dir_x: SCALE, dir_y: 0 },
        }
    }

    pub fn height_scale(&self) -> (r: i64)
        ensures
            r == height_scale_spec(self.spec_biome()),
            fx_valid(r),
    {
        match self.biome_type {
            BiomeType::Desert => 600_000_000,
            BiomeType::Alpine => 1_800_000_000,
            BiomeType::Temperate => 900_000_000,
        }
    }

    pub fn sea_level_offset(&self) -> (r: i64)
        ensures
            r == sea_level_offset_spec(self.spec_biome()),
            fx_valid(r),
    {
        match self.biome_type {
            BiomeType::Desert => 100_000,
            BiomeType::Alpine => 50_000,
            BiomeType::Temperate => 80_000,
        }
    }

    pub fn river_threshold(&self) -> (r: i64)
        ensures
            r == river_threshold_spec(self.spec_biome()),
            0 < r < SCALE,
    {
        match self.biome_type {
            BiomeType::Desert => 200_000,
            BiomeType::Alpine => 150_000,
            BiomeType::Temperate => 120_000,
        }
    }

    pub fn river_width(&self) -> (r: i64)
        ensures
            r == river_width_spec(self.spec_biome()),
            fx_valid(r),
    {
        match self.biome_type {
            BiomeType::Desert => 2_000_000,
            BiomeType::Alpine => 1_500_000,
            BiomeType::Temperate => 3_000_000,
        }
    }

    pub fn river_depth(&self) -> (r: i64)
        ensures
            r == river_depth_spec(self.spec_biome()),
            0 <= r,
            fx_valid(r),
    {
        match self.biome_type {
            BiomeType::Desert => 30_000,
            BiomeType::Alpine => 40_000,
            BiomeType::Temperate => 25_000,
        }
    }

    pub fn coastal_erosion(&self) -> (r: i64)
        ensures
            r == coastal_erosion_spec(self.spec_biome()),
            0 <= r,
            fx_valid(r),
    {
        match self.biome_type {
            BiomeType::Desert => 50_000,
            BiomeType::Alpine => 30_000,
            BiomeType::Temperate => 40_000,
        }
    }

    pub fn beach_width(&self) -> (r: i64)
        ensures
            r == beach_width_spec(self.spec_biome()),
            0 <= r <= MAX_RADIUS,
    {
        match self.biome_type {
            BiomeType::Desert => 8_000_000,
            BiomeType::Alpine => 6_000_000,
            BiomeType::Temperate => 10_000_000,
        }
    }
}

} // verus!
