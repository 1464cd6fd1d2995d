use terragen::HeightField;
use terragen::WaterSystemParams;
use terragen::fixed::SCALE;
use terragen::water_system::apply_coastal_erosion;
use terragen::water_system::apply_water_system;
use terragen::water_system::calculate_flow_accumulation;
use terragen::water_system::carve_rivers;
use terragen::water_system::generate_beach_mask;
use terragen::water_system::generate_river_mask;

fn sloped_field(n: usize) -> HeightField {
    let mut hf = HeightField::new(n);
    for y in 0..n {
        for x in 0..n {
            hf.set(x, y, ((n - x) as i64 + (n - y) as i64) * 100_000);
        }
    }
    hf
}

#[test]
fn flow_conserves_the_per_cell_unit() {
    let hf = sloped_field(6);
    let (flow, routed) = calculate_flow_accumulation(&hf);
    assert_eq!(flow.len(), 36);
    assert_eq!(routed.len(), 36);
    let mut flow_total: u64 = 0;
    for &f in &flow {
        assert!(f >= 1, "every cell keeps at least its own unit");
        assert!(f <= 36);
        flow_total += f;
    }
    let routed_total: u64 = routed.iter().sum();
    assert_eq!(flow_total, 36 + routed_total);
    // a cell routes either everything it accumulated or nothing at all
    for i in 0..36 {
        assert!(routed[i] == 0 || routed[i] == flow[i]);
    }
}

#[test]
fn flat_field_routes_no_flow() {
    let hf = HeightField::with_fill(5, 400_000);
    let (flow, routed) = calculate_flow_accumulation(&hf);
    for &f in &flow {
        assert_eq!(f, 1);
    }
    for &r in &routed {
        assert_eq!(r, 0);
    }
}

#[test]
fn river_mask_values_stay_in_unit_range() {
    let hf = sloped_field(8);
    let (flow, _) = calculate_flow_accumulation(&hf);
    let mask = generate_river_mask(&hf, &flow, 120_000);
    assert_eq!(mask.len(), 64);
    for v in mask {
        assert!(0 <= v && v <= SCALE);
    }
}

#[test]
fn beach_mask_values_stay_in_unit_range() {
    let hf = sloped_field(8);
    let mask = generate_beach_mask(&hf, 500_000, 3_000_000);
    assert_eq!(mask.len(), 64);
    for v in mask {
        assert!(0 <= v && v <= SCALE);
    }
}

#[test]
fn submerged_cells_are_full_strength_beach() {
    let hf = HeightField::with_fill(4, 50_000);
    let mask = generate_beach_mask(&hf, 100_000, 2_000_000);
    for v in mask {
        assert_eq!(v, SCALE);
    }
}

#[test]
fn dry_inland_grid_has_no_beach() {
    let hf = HeightField::with_fill(4, 900_000);
    let mask = generate_beach_mask(&hf, 100_000, 2_000_000);
    for v in mask {
        assert_eq!(v, 0);
    }
}

#[test]
fn coastal_erosion_floors_at_thirty_percent() {
    let mut hf = HeightField::with_fill(4, 1_000_000);
    let beach = vec![SCALE; 16];
    apply_coastal_erosion(&mut hf, &beach, 900_000);
    for v in hf.get_data() {
        // 1.0 - 0.9 would fall to 0.1; the floor keeps it at 0.3
        assert_eq!(v, 300_000);
    }
}

#[test]
fn coastal_erosion_subtracts_when_above_the_floor() {
    let mut hf = HeightField::with_fill(4, 1_000_000);
    let beach = vec![SCALE; 16];
    apply_coastal_erosion(&mut hf, &beach, 100_000);
    for v in hf.get_data() {
        assert_eq!(v, 900_000);
    }
}

#[test]
fn carving_skips_cells_off_the_river() {
    let mut hf = sloped_field(5);
    let before = hf.get_data();
    let mask = vec![0i64; 25];
    carve_rivers(&mut hf, &mask, 30_000, 2_000_000);
    assert_eq!(hf.get_data(), before);
}

#[test]
fn carving_lowers_river_cells() {
    let mut hf = HeightField::with_fill(5, 800_000);
    let before = hf.get_data();
    let mask = vec![SCALE; 25];
    carve_rivers(&mut hf, &mask, 30_000, 2_000_000);
    let after = hf.get_data();
    for i in 0..25 {
        assert!(after[i] < before[i]);
        assert!(after[i] >= 0);
    }
}

#[test]
fn water_system_returns_a_matched_feature_set() {
    let mut hf = sloped_field(8);
    let params = WaterSystemParams::new(300_000, 120_000, 3_000_000, 25_000, 40_000, 4_000_000);
    let features = apply_water_system(&mut hf, &params);
    assert_eq!(features.size(), 8);
    assert_eq!(features.get_water_mask().len(), 64);
    assert_eq!(features.get_river_mask().len(), 64);
    assert_eq!(features.get_beach_mask().len(), 64);
    assert_eq!(features.get_flow_accumulation().len(), 64);
    for v in features.get_water_mask() {
        assert!(0 <= v && v <= SCALE);
    }
    for v in features.get_river_mask() {
        assert!(0 <= v && v <= SCALE);
    }
    for v in features.get_beach_mask() {
        assert!(0 <= v && v <= SCALE);
    }
    for f in features.get_flow_accumulation() {
        assert!(1 <= f && f <= 64);
    }
}
