use radiance_cascades_2d::jfa::{jfa_iteration_count, jfa_step_sizes, MAX_ITER};
use radiance_cascades_2d::math_util::{batch_count, batch_count_1d, fast_log2_ceil, UVec3};

#[test]
fn batch_count_rounds_up_per_axis() {
    let r = batch_count(UVec3 { x: 1920, y: 1081, z: 1 }, UVec3 { x: 8, y: 8, z: 1 });
    assert_eq!(r, UVec3 { x: 240, y: 136, z: 1 });
}

#[test]
fn batch_count_of_zero_extent_is_zero() {
    let r = batch_count(UVec3 { x: 0, y: 0, z: 0 }, UVec3 { x: 8, y: 8, z: 1 });
    assert_eq!(r, UVec3 { x: 0, y: 0, z: 0 });
}

#[test]
fn batch_count_does_not_overflow_at_the_largest_extent() {
    assert_eq!(batch_count_1d(u32::MAX, 8), 536_870_912);
    assert_eq!(batch_count_1d(u32::MAX, 1), u32::MAX);
}

#[test]
fn fast_log2_ceil_values() {
    assert_eq!(fast_log2_ceil(0), 0);
    assert_eq!(fast_log2_ceil(1), 0);
    assert_eq!(fast_log2_ceil(2), 1);
    assert_eq!(fast_log2_ceil(3), 2);
    assert_eq!(fast_log2_ceil(4), 2);
    assert_eq!(fast_log2_ceil(5), 3);
    assert_eq!(fast_log2_ceil(255), 8);
    assert_eq!(fast_log2_ceil(256), 8);
    assert_eq!(fast_log2_ceil(257), 9);
    assert_eq!(fast_log2_ceil(u32::MAX), 32);
}

#[test]
fn iteration_count_is_ceil_log2_of_larger_side() {
    for (w, h) in [(1u32, 1u32), (2, 1), (7, 3), (256, 256), (257, 10), (1920, 1080), (65536, 3)] {
        let m = w.max(h);
        let expected = (m as f64).log2().ceil() as usize;
        assert_eq!(jfa_iteration_count(w, h), expected);
        assert_eq!(jfa_iteration_count(h, w), expected);
    }
}

#[test]
fn iteration_count_is_clamped() {
    assert_eq!(jfa_iteration_count(65537, 1), MAX_ITER);
    assert_eq!(jfa_iteration_count(u32::MAX, u32::MAX), MAX_ITER);
    assert_eq!(jfa_iteration_count(0, 0), 0);
}

#[test]
fn step_sizes_are_powers_of_two() {
    let steps = jfa_step_sizes();
    assert_eq!(steps.len(), 16);
    for (i, s) in steps.iter().enumerate() {
        assert_eq!(*s, 1u32 << i);
    }
}
