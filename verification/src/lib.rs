//! Procedural terrain synthesis and geological aging over square height grids.
//!
//! Elevations, masks and parameters are fixed-point values: an `i64` counts
//! millionths of a world unit (`fixed::SCALE` per unit). The fixed grain is
//! deliberate: noise sampling collapses coordinates to that precision, so two
//! abutting tiles generated separately agree bit-for-bit along their seam.

use vstd::prelude::*;

pub mod biomes;
pub mod erosion;
pub mod filters;
pub mod fixed;
pub mod height_field;
pub mod noise;
pub mod terrain;
pub mod tiling;
pub mod water_system;

pub use biomes::BiomeParams;
pub use biomes::BiomeType;
pub use height_field::HeightField;
pub use terrain::TerrainGenerationResult;
pub use terrain::generate_terrain;
pub use tiling::TileGrid;
pub use tiling::generate_continuous_tile_grid;
pub use water_system::WaterFeatures;
pub use water_system::WaterSystemParams;

verus! {

/// The largest side length a grid may have. Keeps `size * size` within
/// `usize` on every platform and keeps flow totals within `u64`.
pub const MAX_SIZE: usize = 65535;

} // verus!
