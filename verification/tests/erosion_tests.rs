use terragen::HeightField;
use terragen::WaterSystemParams;
use terragen::erosion::ErosionParams;
use terragen::erosion::apply_geological_erosion;
use terragen::erosion::apply_hydraulic_erosion;
use terragen::erosion::apply_thermal_erosion;
use terragen::erosion::apply_wind_erosion;
use terragen::fixed::SCALE;
use terragen::water_system::apply_water_system;

fn spike_field(n: usize) -> HeightField {
    let mut hf = HeightField::with_fill(n, 100_000);
    hf.set(n / 2, n / 2, 5_000_000);
    hf
}

#[test]
fn zero_rain_hydraulic_pass_is_pixel_identical() {
    let mut hf = spike_field(8);
    let mut probe = hf.clone_field();
    let wp = WaterSystemParams::new(50_000, 80_000, 8_000_000, 50_000, 40_000, 8_000_000);
    let features = apply_water_system(&mut probe, &wp);
    let before = hf.get_data();
    let params = ErosionParams::new(50_000_000, 50_000, 100_000, 0, 25_000_000);
    apply_hydraulic_erosion(&mut hf, &features, &params, 10);
    assert_eq!(hf.get_data(), before);
}

#[test]
fn rain_erodes_a_sloped_surface() {
    let mut hf = HeightField::new(8);
    for y in 0..8usize {
        for x in 0..8usize {
            hf.set(x, y, ((8 - x) as i64 + (8 - y) as i64) * 150_000);
        }
    }
    let mut probe = hf.clone_field();
    let wp = WaterSystemParams::new(50_000, 80_000, 8_000_000, 50_000, 40_000, 8_000_000);
    let features = apply_water_system(&mut probe, &wp);
    let before = hf.get_data();
    let params = ErosionParams::new(50_000_000, 50_000, 100_000, SCALE, 25_000_000);
    apply_hydraulic_erosion(&mut hf, &features, &params, 4);
    assert_ne!(hf.get_data(), before);
}

#[test]
fn wind_erodes_the_exposed_peak() {
    let mut hf = spike_field(7);
    let before = hf.get(3, 3);
    let params = ErosionParams::new(100_000_000, 0, 500_000, 0, 0);
    apply_wind_erosion(&mut hf, &params, 3);
    assert!(hf.get(3, 3) < before);
}

#[test]
fn wind_erodes_negative_relief_too() {
    // exposure compares against the plain neighbour maximum, so a ridge
    // that pokes out of a below-zero basin still wears down
    let mut hf = HeightField::with_fill(7, -500_000);
    hf.set(3, 3, -100_000);
    let params = ErosionParams::new(100_000_000, 0, 500_000, 0, 0);
    apply_wind_erosion(&mut hf, &params, 2);
    assert!(hf.get(3, 3) < -100_000);
}

#[test]
fn zero_strength_wind_changes_nothing() {
    let mut hf = spike_field(7);
    let before = hf.get_data();
    let params = ErosionParams::new(100_000_000, 0, 0, 0, 0);
    apply_wind_erosion(&mut hf, &params, 3);
    assert_eq!(hf.get_data(), before);
}

#[test]
fn thermal_moves_material_downhill() {
    let mut hf = spike_field(7);
    let peak_before = hf.get(3, 3);
    let neighbour_before = hf.get(4, 3);
    let params = ErosionParams::new(100_000_000, 0, 0, 0, 25_000_000);
    apply_thermal_erosion(&mut hf, &params, 2);
    assert!(hf.get(3, 3) < peak_before);
    assert!(hf.get(4, 3) > neighbour_before);
}

#[test]
fn short_durations_take_the_fast_path_but_still_compute_hydrology() {
    let mut hf = spike_field(8);
    let params = ErosionParams::new(5_000_000, 100_000_000, 100_000, SCALE, 10_000_000);
    let features = apply_geological_erosion(&mut hf, &params);
    assert_eq!(features.size(), 8);
    assert_eq!(features.get_water_mask().len(), 64);
    for f in features.get_flow_accumulation() {
        assert!(f >= 1);
    }
}

#[test]
fn long_durations_run_every_process() {
    let mut hf = HeightField::new(8);
    for y in 0..8usize {
        for x in 0..8usize {
            hf.set(x, y, ((x * x + y) as i64) * 40_000);
        }
    }
    let before = hf.get_data();
    let params = ErosionParams::new(1_000_000_000, 100_000_000, 200_000, SCALE, 25_000_000);
    let features = apply_geological_erosion(&mut hf, &params);
    assert_eq!(features.size(), 8);
    assert_ne!(hf.get_data(), before);
    for v in features.get_river_mask() {
        assert!(0 <= v && v <= SCALE);
    }
    for v in features.get_beach_mask() {
        assert!(0 <= v && v <= SCALE);
    }
}
