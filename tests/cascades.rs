use radiance_cascades_2d::radiance_cascades::{
    cascade_count, probe_table, Interval, Probe, RadianceCascadesConfig, RadianceCascadesTextures,
    MAX_CASCADE_COUNT,
};

fn expected_count(w: u32, h: u32, i0: f64) -> usize {
    let d = ((w as f64).powi(2) + (h as f64).powi(2)).sqrt();
    let n = (1.0 + 3.0 * d / i0).log(4.0).ceil() as usize;
    n.min(16)
}

#[test]
fn cascade_count_of_the_scenario_view() {
    assert_eq!(cascade_count(256, 256, Interval::new(2, 1)), 5);
}

#[test]
fn cascade_count_matches_the_geometric_series_formula() {
    for (w, h, num, den) in [
        (1u32, 1u32, 2u32, 1u32),
        (1920, 1080, 2, 1),
        (1920, 1080, 8, 1),
        (1920, 1080, 1, 1),
        (256, 256, 3, 2),
        (640, 480, 5, 1),
    ] {
        let i0 = num as f64 / den as f64;
        assert_eq!(cascade_count(w, h, Interval::new(num, den)), expected_count(w, h, i0));
    }
}

#[test]
fn cascade_count_on_an_exact_power_of_four() {
    // diagonal 5 and interval 1: 1 + 3 * 5 / 1 = 16 = 4^2
    assert_eq!(cascade_count(3, 4, Interval::new(1, 1)), 2);
}

#[test]
fn cascade_count_of_an_empty_view_is_zero() {
    assert_eq!(cascade_count(0, 0, Interval::new(2, 1)), 0);
}

#[test]
fn cascade_count_is_clamped() {
    assert_eq!(cascade_count(u32::MAX, u32::MAX, Interval::new(1, 1)), MAX_CASCADE_COUNT);
}

#[test]
fn cascade_count_is_monotonic() {
    let mut last = 0;
    for side in [1u32, 2, 5, 17, 100, 333, 1000, 4096, 65536, 1 << 20] {
        let c = cascade_count(side, side, Interval::new(2, 1));
        assert!(c >= last);
        assert!(c <= MAX_CASCADE_COUNT);
        last = c;
    }
    let mut last = usize::MAX;
    for num in [1u32, 2, 3, 8, 50, 1000, 100000] {
        let c = cascade_count(1920, 1080, Interval::new(num, 1));
        assert!(c <= last);
        last = c;
    }
}

#[test]
fn probe_table_follows_the_geometric_series() {
    let config = RadianceCascadesConfig::default();
    let probes = probe_table(&config, 5);
    let expected = [
        Probe { width: 2, start: 0, range: 2 },
        Probe { width: 4, start: 2, range: 8 },
        Probe { width: 8, start: 10, range: 32 },
        Probe { width: 16, start: 42, range: 128 },
        Probe { width: 32, start: 170, range: 512 },
    ];
    assert_eq!(probes, expected.to_vec());
    let total: u64 = probes.iter().map(|p| p.range).sum();
    assert_eq!(total, 2 * (4u64.pow(5) - 1) / 3);
}

#[test]
fn each_probe_starts_where_the_previous_ends() {
    let config = RadianceCascadesConfig::new(3, Interval::new(7, 2));
    let probes = probe_table(&config, 16);
    assert_eq!(probes.len(), 16);
    for c in 0..16usize {
        assert_eq!(probes[c].width, 1u32 << (c as u32 + 3));
        assert_eq!(probes[c].range, 7 * 4u64.pow(c as u32));
        let sum: u64 = probes[..c].iter().map(|p| p.range).sum();
        assert_eq!(probes[c].start, sum);
    }
    assert_eq!(probes[15].start, 7 * (4u64.pow(15) - 1) / 3);
}

#[test]
fn config_new_clamps_to_one() {
    let c = RadianceCascadesConfig::new(0, Interval::new(1, 2));
    assert_eq!(c.resolution_factor, 1);
    assert_eq!(c.interval0, Interval { num: 1, den: 1 });
    let c = RadianceCascadesConfig::new(4, Interval::new(5, 2));
    assert_eq!(c.resolution_factor, 4);
    assert_eq!(c.interval0, Interval { num: 5, den: 2 });
}

#[test]
fn config_builders() {
    let c = RadianceCascadesConfig::default();
    assert_eq!(c.resolution_factor, 1);
    assert_eq!(c.interval0, Interval { num: 2, den: 1 });
    let c = c.with_resolution_factor(0);
    assert_eq!(c.resolution_factor, 1);
    let c = c.with_resolution_factor(3).with_interval(Interval::new(9, 4));
    assert_eq!(c.resolution_factor, 3);
    assert_eq!(c.interval0, Interval { num: 9, den: 4 });
    let c = c.with_interval(Interval::new(3, 4));
    assert_eq!(c.interval0, Interval { num: 1, den: 1 });
    assert_eq!(c.resolution_factor, 3);
}

#[test]
fn cascade_textures_parity() {
    for n in [0usize, 1, 2, 15, 16] {
        let t = RadianceCascadesTextures::new("dist", "c0", "c1", n);
        let expected = if n % 2 == 1 { "c0" } else { "c1" };
        assert_eq!(*t.main_texture(), expected, "after {n} cascades");
        assert_eq!(t.dist_field_texture, "dist");
    }
}
