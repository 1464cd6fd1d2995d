use terragen::HeightField;
use terragen::fixed::SCALE;

#[test]
fn get_set_round_trips_in_bounds() {
    let mut hf = HeightField::new(8);
    hf.set(3, 4, 123_456);
    assert_eq!(hf.get(3, 4), 123_456);
    hf.set(0, 0, -7);
    assert_eq!(hf.get(0, 0), -7);
    hf.set(7, 7, SCALE);
    assert_eq!(hf.get(7, 7), SCALE);
}

#[test]
fn set_out_of_bounds_is_a_no_op() {
    let mut hf = HeightField::with_fill(4, 55);
    hf.set(4, 0, 999);
    hf.set(0, 4, 999);
    hf.set(100, 100, 999);
    for v in hf.get_data() {
        assert_eq!(v, 55);
    }
}

#[test]
fn get_clamps_to_the_edge() {
    let mut hf = HeightField::new(3);
    hf.set(2, 2, 42);
    assert_eq!(hf.get(9, 9), 42);
    assert_eq!(hf.get_clamped(-5, -5), hf.get(0, 0));
    assert_eq!(hf.get_clamped(99, 99), 42);
}

#[test]
fn with_fill_fills_every_cell() {
    let hf = HeightField::with_fill(5, 314_159);
    let data = hf.get_data();
    assert_eq!(data.len(), 25);
    for v in data {
        assert_eq!(v, 314_159);
    }
}

#[test]
fn set_data_rejects_length_mismatch() {
    let mut hf = HeightField::with_fill(3, 7);
    let wrong = vec![1i64, 2, 3];
    hf.set_data(&wrong);
    for v in hf.get_data() {
        assert_eq!(v, 7);
    }
    let right = vec![5i64; 9];
    hf.set_data(&right);
    for v in hf.get_data() {
        assert_eq!(v, 5);
    }
}

#[test]
fn resample_same_size_is_identity() {
    let mut hf = HeightField::new(6);
    for y in 0..6usize {
        for x in 0..6usize {
            hf.set(x, y, (x as i64) * 1_000 + (y as i64));
        }
    }
    let copy = hf.resample_to(6);
    assert_eq!(copy.get_data(), hf.get_data());
}

#[test]
fn resample_preserves_corners() {
    let mut hf = HeightField::new(2);
    hf.set(0, 0, 0);
    hf.set(1, 0, SCALE);
    hf.set(0, 1, SCALE);
    hf.set(1, 1, 2 * SCALE);
    let up = hf.resample_to(3);
    assert_eq!(up.size(), 3);
    assert_eq!(up.get(0, 0), 0);
    assert_eq!(up.get(2, 0), SCALE);
    assert_eq!(up.get(0, 2), SCALE);
    assert_eq!(up.get(2, 2), 2 * SCALE);
    // the midpoint averages its corners
    assert_eq!(up.get(1, 1), SCALE);
}

#[test]
fn normalize_spans_zero_to_one() {
    let mut hf = HeightField::new(4);
    for y in 0..4usize {
        for x in 0..4usize {
            hf.set(x, y, (y as i64 * 4 + x as i64) * 10_000 + 500);
        }
    }
    hf.normalize();
    let data = hf.get_data();
    let mn = *data.iter().min().unwrap();
    let mx = *data.iter().max().unwrap();
    assert_eq!(mn, 0);
    assert_eq!(mx, SCALE);
    for v in data {
        assert!(0 <= v && v <= SCALE);
    }
}

#[test]
fn normalize_leaves_constant_grid_unchanged() {
    let mut hf = HeightField::with_fill(4, 77_000);
    hf.normalize();
    for v in hf.get_data() {
        assert_eq!(v, 77_000);
    }
}

#[test]
fn normalize_of_empty_grid_is_fine() {
    let mut hf = HeightField::new(0);
    hf.normalize();
    assert_eq!(hf.get_data().len(), 0);
}

#[test]
fn clone_field_is_equal_and_independent() {
    let mut hf = HeightField::with_fill(3, 9);
    let copy = hf.clone_field();
    hf.set(1, 1, 1234);
    assert_eq!(copy.get(1, 1), 9);
    assert_eq!(hf.get(1, 1), 1234);
}
