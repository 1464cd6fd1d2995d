use terragen::BiomeParams;
use terragen::BiomeType;
use terragen::WaterSystemParams;
use terragen::water_system::apply_water_system;
use terragen::fixed::SCALE;
use terragen::generate_continuous_tile_grid;
use terragen::generate_terrain;

#[test]
fn terrain_without_erosion_has_no_water_features() {
    let result = generate_terrain(32, 1, 1, BiomeType::Desert, 100_000, 0);
    let field = result.height_field();
    assert_eq!(field.size(), 32);
    assert!(result.water_features().is_none());
}

#[test]
fn short_erosion_still_returns_water_features() {
    // five years sits below the ten-year threshold: no erosion process
    // runs, yet baseline hydrology is computed and returned
    let result = generate_terrain(32, 1, 1, BiomeType::Desert, 100_000, 5_000_000);
    let field = result.height_field();
    assert_eq!(field.size(), 32);
    let features = result.water_features().expect("hydrology must be present");
    assert_eq!(features.size(), 32);
    assert_eq!(features.get_flow_accumulation().len(), 32 * 32);
}

#[test]
fn each_step_doubles_the_resolution() {
    let result = generate_terrain(16, 3, 9, BiomeType::Alpine, 50_000, 0);
    assert_eq!(result.height_field().size(), 64);
}

#[test]
fn generation_is_deterministic() {
    let a = generate_terrain(16, 2, 77, BiomeType::Temperate, 80_000, 0);
    let b = generate_terrain(16, 2, 77, BiomeType::Temperate, 80_000, 0);
    assert_eq!(a.height_field().get_data(), b.height_field().get_data());
}

#[test]
fn biome_table_is_fixed() {
    let desert = BiomeParams::for_biome(BiomeType::Desert);
    assert_eq!(desert.fbm_params().amplitude, 150_000);
    assert_eq!(desert.fbm_params().octaves, 5);
    assert!(desert.has_dunes());
    assert_eq!(desert.height_scale(), 600_000_000);
    assert_eq!(desert.beach_width(), 8_000_000);
    let alpine = BiomeParams::for_biome(BiomeType::Alpine);
    assert!(!alpine.has_dunes());
    assert_eq!(alpine.ridge_sharpen_strength(), 600_000);
    assert_eq!(alpine.river_threshold(), 150_000);
    let temperate = BiomeParams::for_biome(BiomeType::Temperate);
    assert_eq!(temperate.slope_blur_params().iterations, 2);
    assert_eq!(temperate.river_width(), 3_000_000);
}

#[test]
fn tile_grid_slices_the_atlas() {
    let grid = generate_continuous_tile_grid(
        2,
        2,
        10,
        1,
        8,
        0,
        7,
        BiomeType::Temperate,
        100_000,
        0,
    );
    assert_eq!(grid.inner_size(), 8);
    assert_eq!(grid.atlas_w(), 16);
    assert_eq!(grid.atlas_h(), 16);
    assert_eq!(grid.tiles().len(), 4);
    assert_eq!(grid.rects().len(), 4);
    assert!(grid.water_features().is_none());
    for tile in grid.tiles() {
        assert_eq!(tile.size(), 10);
    }
    // the first tile's in-atlas cells coincide with the atlas crop
    let atlas = grid.atlas();
    let tile0 = &grid.tiles()[0];
    for y in 0..10usize {
        for x in 0..10usize {
            assert_eq!(tile0.get(x, y), atlas[y * 16 + x]);
        }
    }
    // the second tile is offset by one inner width
    let tile1 = &grid.tiles()[1];
    for y in 0..8usize {
        for x in 0..8usize {
            assert_eq!(tile1.get(x, y), atlas[y * 16 + (8 + x)]);
        }
    }
}

#[test]
fn tile_rects_are_exact_fractions() {
    let grid = generate_continuous_tile_grid(
        2,
        2,
        10,
        1,
        8,
        0,
        7,
        BiomeType::Temperate,
        100_000,
        0,
    );
    let rects = grid.rects();
    assert_eq!(rects[0].u0, 0);
    assert_eq!(rects[0].v0, 0);
    assert_eq!(rects[0].u1, SCALE / 2);
    assert_eq!(rects[0].v1, SCALE / 2);
    assert_eq!(rects[1].u0, SCALE / 2);
    assert_eq!(rects[1].v0, 0);
    assert_eq!(rects[1].u1, SCALE);
    assert_eq!(rects[3].u1, SCALE);
    assert_eq!(rects[3].v1, SCALE);
}

#[test]
fn fast_path_is_one_water_system_pass_over_the_synthesized_grid() {
    // generating without erosion yields the pure synthesized grid; running
    // the water system over it with the fast-path parameters must
    // reproduce a sub-ten-year erosion run exactly
    let plain = generate_terrain(16, 1, 3, BiomeType::Temperate, 80_000, 0);
    let mut field = plain.height_field();
    let params = WaterSystemParams::new(80, 100_000, 8_000_000, 50_000, 40_000, 8_000_000);
    let manual = apply_water_system(&mut field, &params);
    let eroded = generate_terrain(16, 1, 3, BiomeType::Temperate, 80_000, 5_000_000);
    assert_eq!(field.get_data(), eroded.height_field().get_data());
    let features = eroded.water_features().unwrap();
    assert_eq!(manual.get_water_mask(), features.get_water_mask());
    assert_eq!(manual.get_river_mask(), features.get_river_mask());
    assert_eq!(manual.get_beach_mask(), features.get_beach_mask());
    assert_eq!(manual.get_flow_accumulation(), features.get_flow_accumulation());
}

#[test]
fn eroded_generation_is_deterministic() {
    let a = generate_terrain(16, 1, 5, BiomeType::Alpine, 60_000, 500_000_000);
    let b = generate_terrain(16, 1, 5, BiomeType::Alpine, 60_000, 500_000_000);
    assert_eq!(a.height_field().get_data(), b.height_field().get_data());
    let wa = a.water_features().unwrap();
    let wb = b.water_features().unwrap();
    assert_eq!(wa.get_flow_accumulation(), wb.get_flow_accumulation());
    assert_eq!(wa.get_river_mask(), wb.get_river_mask());
    assert_eq!(wa.get_beach_mask(), wb.get_beach_mask());
    assert_eq!(wa.get_water_mask(), wb.get_water_mask());
}
