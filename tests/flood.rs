use radiance_cascades_2d::distance_field::{distance_field, NO_SEED_DISTANCE};
use radiance_cascades_2d::jfa::{jfa_pass, jump_flood, mask_pass, OccluderMask, Seed, SeedMap};

fn single_seed(w: u32, h: u32, x0: u32, y0: u32) {
    let mut mask = OccluderMask::new(w, h);
    mask.set(x0, y0, 1);
    let seeds = jump_flood(&mask);
    assert_eq!(seeds.width, w);
    assert_eq!(seeds.height, h);
    for y in 0..h {
        for x in 0..w {
            assert_eq!(seeds.get(x, y), Some(Seed { x: x0, y: y0 }), "pixel ({x}, {y})");
        }
    }
}

#[test]
fn single_seed_reaches_every_pixel() {
    single_seed(13, 7, 4, 5);
    single_seed(1, 1, 0, 0);
    single_seed(64, 64, 0, 63);
    single_seed(100, 3, 99, 0);
    single_seed(256, 256, 128, 128);
}

#[test]
fn mask_pass_seeds_occluders_only() {
    let mut mask = OccluderMask::new(4, 3);
    mask.set(1, 2, 7);
    mask.set(3, 0, 1);
    let seeds = mask_pass(&mask);
    for y in 0..3 {
        for x in 0..4 {
            let expected = if (x, y) == (1, 2) || (x, y) == (3, 0) { Some(Seed { x, y }) } else { None };
            assert_eq!(seeds.get(x, y), expected);
        }
    }
}

#[test]
fn pass_keeps_the_nearest_candidate() {
    // pixel (2, 0) sees (0, 0) at step 2 and (4, 0) at step 2: the earlier
    // candidate stays on a tie; pixel (3, 0) prefers (4, 0).
    let mut mask = OccluderMask::new(5, 1);
    mask.set(0, 0, 1);
    mask.set(4, 0, 1);
    let out = jfa_pass(&mask_pass(&mask), 1);
    assert_eq!(out.get(1, 0), Some(Seed { x: 0, y: 0 }));
    assert_eq!(out.get(2, 0), None);
    assert_eq!(out.get(3, 0), Some(Seed { x: 4, y: 0 }));
    let out2 = jfa_pass(&mask_pass(&mask), 2);
    assert_eq!(out2.get(2, 0), Some(Seed { x: 0, y: 0 }));
}

#[test]
fn two_seeds_split_the_image() {
    let mut mask = OccluderMask::new(16, 4);
    mask.set(1, 1, 1);
    mask.set(14, 2, 1);
    let seeds = jump_flood(&mask);
    assert_eq!(seeds.get(0, 0), Some(Seed { x: 1, y: 1 }));
    assert_eq!(seeds.get(5, 3), Some(Seed { x: 1, y: 1 }));
    assert_eq!(seeds.get(10, 0), Some(Seed { x: 14, y: 2 }));
    assert_eq!(seeds.get(15, 3), Some(Seed { x: 14, y: 2 }));
}

#[test]
fn empty_mask_records_no_seed() {
    let mask = OccluderMask::new(8, 8);
    let seeds = jump_flood(&mask);
    assert!(seeds.texels.iter().all(|t| t.is_none()));
    let field = distance_field(&seeds);
    assert!(field.texels.iter().all(|d| *d == NO_SEED_DISTANCE));
}

#[test]
fn distance_field_is_squared_distance_to_recorded_seed() {
    let mut mask = OccluderMask::new(9, 6);
    mask.set(2, 3, 1);
    let seeds = jump_flood(&mask);
    let field = distance_field(&seeds);
    assert_eq!(field.width, 9);
    assert_eq!(field.height, 6);
    for y in 0..6u32 {
        for x in 0..9u32 {
            let dx = x as i64 - 2;
            let dy = y as i64 - 3;
            assert_eq!(field.texels[(y * 9 + x) as usize], (dx * dx + dy * dy) as u64);
            let euclid = ((dx * dx + dy * dy) as f64).sqrt();
            assert!(((field.texels[(y * 9 + x) as usize] as f64).sqrt() - euclid).abs() < 1e-9);
        }
    }
    assert_eq!(field.texels[0], 4 + 9);
}

#[test]
fn distance_field_of_a_hand_built_seed_map() {
    let seeds = SeedMap {
        width: 3,
        height: 1,
        texels: vec![Some(Seed { x: 2, y: 0 }), None, Some(Seed { x: 2, y: 0 })],
    };
    let field = distance_field(&seeds);
    assert_eq!(field.texels, vec![4, NO_SEED_DISTANCE, 0]);
}

#[test]
fn every_recorded_seed_is_an_occluder_and_every_pixel_has_one() {
    let (w, h) = (37u32, 23u32);
    let mut mask = OccluderMask::new(w, h);
    let mut state: u32 = 12345;
    let mut occluders = Vec::new();
    for _ in 0..9 {
        state = state.wrapping_mul(1_103_515_245).wrapping_add(12_345);
        let x = (state >> 8) % w;
        state = state.wrapping_mul(1_103_515_245).wrapping_add(12_345);
        let y = (state >> 8) % h;
        mask.set(x, y, 3);
        occluders.push((x, y));
    }
    let seeds = jump_flood(&mask);
    for y in 0..h {
        for x in 0..w {
            let s = seeds.get(x, y).expect("a pixel without a seed");
            assert!(occluders.contains(&(s.x, s.y)));
            assert_ne!(mask.texels[(s.y * w + s.x) as usize], 0);
        }
    }
    // each occluder records itself
    for (x, y) in occluders {
        assert_eq!(seeds.get(x, y), Some(Seed { x, y }));
    }
}

#[test]
fn single_seed_in_a_corner_of_a_wide_strip() {
    single_seed(1000, 2, 999, 1);
}
