use terragen::HeightField;
use terragen::fixed::SCALE;
use terragen::noise::FBMParams;
use terragen::noise::apply_fbm;
use terragen::noise::apply_fbm_for_tile;
use terragen::noise::value_noise_2d;

#[test]
fn value_noise_stays_in_unit_range() {
    let mut x: i64 = -3_000_000;
    while x <= 3_000_000 {
        let mut y: i64 = -3_000_000;
        while y <= 3_000_000 {
            let v = value_noise_2d(x, y, 42);
            assert!(0 <= v && v < SCALE);
            y += 437_000;
        }
        x += 437_000;
    }
}

#[test]
fn value_noise_is_deterministic() {
    for i in 0..50i64 {
        let a = value_noise_2d(i * 123_457, i * 789_013, 7);
        let b = value_noise_2d(i * 123_457, i * 789_013, 7);
        assert_eq!(a, b);
    }
}

#[test]
fn fbm_is_bit_identical_across_allocations() {
    let params = FBMParams::new(220_000, 1_600_000, 5, 2_000_000, 500_000, 100_000, 0);
    let mut a = HeightField::with_fill(16, 250_000);
    let mut b = HeightField::with_fill(16, 250_000);
    apply_fbm(&mut a, &params, 1337);
    apply_fbm(&mut b, &params, 1337);
    assert_eq!(a.get_data(), b.get_data());
}

#[test]
fn fbm_seed_changes_output() {
    let params = FBMParams::new(220_000, 1_600_000, 4, 2_000_000, 500_000, 100_000, 0);
    let mut a = HeightField::with_fill(16, 0);
    let mut b = HeightField::with_fill(16, 0);
    apply_fbm(&mut a, &params, 1);
    apply_fbm(&mut b, &params, 2);
    assert_ne!(a.get_data(), b.get_data());
}

#[test]
fn single_octave_fbm_stays_within_amplitude() {
    // a flat field at 0.5 with amplitude 0.2 and one octave stays in
    // [0.3, 0.7] everywhere
    let params = FBMParams::new(200_000, 1_000_000, 1, 2_000_000, 500_000, 0, 42);
    let mut hf = HeightField::with_fill(64, 500_000);
    apply_fbm(&mut hf, &params, 42);
    for v in hf.get_data() {
        assert!(300_000 <= v && v <= 700_000, "cell {} out of band", v);
    }
}

#[test]
fn tile_noise_is_deterministic_per_tile_coordinates() {
    let params = FBMParams::new(150_000, 2_000_000, 3, 2_000_000, 500_000, 150_000, 0);
    let mut a = HeightField::with_fill(8, 0);
    let mut b = HeightField::with_fill(8, 0);
    apply_fbm_for_tile(&mut a, &params, 9, 2_000_000, 3_000_000, SCALE);
    apply_fbm_for_tile(&mut b, &params, 9, 2_000_000, 3_000_000, SCALE);
    assert_eq!(a.get_data(), b.get_data());
}
