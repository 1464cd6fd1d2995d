use terragen::filters::apply_dunes;
use terragen::filters::apply_ridge_sharpen;
use terragen::filters::apply_slope_blur;
use terragen::filters::apply_smoothing;
use terragen::filters::apply_thermal_erosion;
use terragen::filters::DuneParams;
use terragen::filters::SlopeBlurParams;
use terragen::fixed::emod;
use terragen::fixed::fx_add;
use terragen::fixed::fx_mul;
use terragen::fixed::mul_div;
use terragen::fixed::sin_wave;
use terragen::fixed::SCALE;
use terragen::HeightField;

#[test]
fn mul_div_truncates_toward_zero() {
    assert_eq!(mul_div(7, 3, 2), 10);
    assert_eq!(mul_div(-7, 3, 2), -10);
    assert_eq!(mul_div(7, -3, 2), -10);
    assert_eq!(mul_div(-7, -3, 2), 10);
}

#[test]
fn fixed_product_scales_by_one_million() {
    assert_eq!(fx_mul(SCALE, SCALE), SCALE);
    assert_eq!(fx_mul(2_000_000, 500_000), SCALE);
    assert_eq!(fx_mul(-300_000, SCALE), -300_000);
    assert_eq!(fx_add(1, 2), 3);
}

#[test]
fn euclidean_remainder_is_non_negative() {
    assert_eq!(emod(7, 5), 2);
    assert_eq!(emod(-7, 5), 3);
    assert_eq!(emod(-10, 5), 0);
    assert_eq!(emod(0, 5), 0);
}

#[test]
fn sine_wave_hits_its_extremes() {
    assert_eq!(sin_wave(0), 0);
    assert_eq!(sin_wave(SCALE / 4), SCALE);
    assert_eq!(sin_wave(SCALE / 2), 0);
    assert_eq!(sin_wave(3 * (SCALE / 4)), -SCALE);
    assert_eq!(sin_wave(SCALE), 0);
    // one full cycle later, the same value
    assert_eq!(sin_wave(SCALE / 4 + SCALE), SCALE);
}

#[test]
fn slope_blur_flattens_a_spike() {
    let mut hf = HeightField::with_fill(7, 100_000);
    hf.set(3, 3, 2_000_000);
    let params = SlopeBlurParams::new(2_000_000, 400_000, 2);
    apply_slope_blur(&mut hf, &params);
    assert!(hf.get(3, 3) < 2_000_000);
}

#[test]
fn zero_iteration_blur_is_identity() {
    let mut hf = HeightField::with_fill(5, 123_456);
    let before = hf.get_data();
    let params = SlopeBlurParams::new(2_000_000, 400_000, 0);
    apply_slope_blur(&mut hf, &params);
    assert_eq!(hf.get_data(), before);
}

#[test]
fn ridge_sharpen_leaves_flat_ground_alone() {
    let mut hf = HeightField::with_fill(6, 444_000);
    apply_ridge_sharpen(&mut hf, 350_000);
    for v in hf.get_data() {
        assert_eq!(v, 444_000);
    }
}

#[test]
fn ridge_sharpen_raises_a_ridge_cell() {
    let mut hf = HeightField::with_fill(5, 100_000);
    hf.set(2, 2, 500_000);
    apply_ridge_sharpen(&mut hf, 350_000);
    assert!(hf.get(2, 2) > 500_000);
}

#[test]
fn dunes_add_a_bounded_ripple() {
    let mut hf = HeightField::with_fill(16, 500_000);
    let params = DuneParams::new(16_000_000, 30_000, 707_107, 707_107);
    apply_dunes(&mut hf, &params);
    for v in hf.get_data() {
        assert!(470_000 <= v && v <= 530_000);
    }
}

#[test]
fn zero_amplitude_dunes_change_nothing() {
    let mut hf = HeightField::with_fill(8, 500_000);
    let before = hf.get_data();
    let params = DuneParams::new(0, 0, SCALE, 0);
    apply_dunes(&mut hf, &params);
    assert_eq!(hf.get_data(), before);
}

#[test]
fn smoothing_pulls_toward_the_average() {
    let mut hf = HeightField::with_fill(5, 100_000);
    hf.set(2, 2, 1_000_000);
    apply_smoothing(&mut hf, 1, SCALE);
    // with full strength the spike becomes the 3x3 average
    assert_eq!(hf.get(2, 2), (8 * 100_000 + 1_000_000) / 9);
}

#[test]
fn thermal_filter_respects_the_talus_threshold() {
    let mut hf = HeightField::with_fill(5, 100_000);
    hf.set(2, 2, 600_000);
    let before = hf.get_data();
    // the spike exceeds neighbours by 0.5, below a talus angle of 0.8
    apply_thermal_erosion(&mut hf, 3, 800_000);
    assert_eq!(hf.get_data(), before);
    // a lower talus angle lets the spike shed material
    apply_thermal_erosion(&mut hf, 3, 100_000);
    assert!(hf.get(2, 2) < 600_000);
}
