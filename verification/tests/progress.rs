use xpenology_usb::progress::{eta_secs, format_bytes, percent, RateEstimator};

#[test]
fn percent_basic() {
    assert_eq!(percent(0, Some(100)), Some(0));
    assert_eq!(percent(50, Some(100)), Some(50));
    assert_eq!(percent(100, Some(100)), Some(100));
}

#[test]
fn percent_clamps_overshoot() {
    assert_eq!(percent(150, Some(100)), Some(100));
}

#[test]
fn percent_unknown_total_is_indeterminate() {
    assert_eq!(percent(50, None), None);
    assert_eq!(percent(50, Some(0)), None);
}

#[test]
fn percent_survives_huge_totals() {
    assert_eq!(percent(1u64 << 62, Some(1u64 << 63)), Some(50));
    assert_eq!(percent(u64::MAX / 2, Some(u64::MAX)), Some(49));
    assert_eq!(percent(u64::MAX, Some(u64::MAX)), Some(100));
}

#[test]
fn eta_basic() {
    assert_eq!(eta_secs(0, Some(1000), Some(100)), Some(10));
    assert_eq!(eta_secs(500, Some(1000), Some(100)), Some(5));
    assert_eq!(eta_secs(1000, Some(1000), Some(100)), Some(0));
}

#[test]
fn eta_handles_missing_inputs() {
    assert_eq!(eta_secs(0, None, Some(100)), None);
    assert_eq!(eta_secs(0, Some(1000), None), None);
    assert_eq!(eta_secs(0, Some(1000), Some(0)), None);
}

#[test]
fn eta_does_not_underflow_past_completion() {
    assert_eq!(eta_secs(2000, Some(1000), Some(100)), Some(0));
}

// Elapsed time is given in microseconds: 1_000_000 is one second.

#[test]
fn rate_estimator_smooths() {
    let mut r = RateEstimator::new();
    assert_eq!(r.sample(100, 1_000_000), Some(100));
    let second = r.sample(1000, 1_000_000).unwrap();
    assert!(second > 100 && second < 1000, "got {second}");
}

#[test]
fn rate_estimator_ignores_zero_elapsed() {
    let mut r = RateEstimator::new();
    r.sample(100, 1_000_000);
    let before = r.current();
    assert_eq!(r.sample(999_999, 0), before);
}

#[test]
fn rate_estimator_starts_empty() {
    assert_eq!(RateEstimator::new().current(), None);
}

#[test]
fn rate_estimator_weighs_the_newest_sample_three_tenths() {
    let mut r = RateEstimator::new();
    r.sample(100, 1_000_000);
    assert_eq!(r.sample(1000, 1_000_000), Some(370));
}

#[test]
fn format_bytes_uses_decimal_units() {
    assert_eq!(format_bytes(0), "0 B");
    assert_eq!(format_bytes(999), "999 B");
    assert_eq!(format_bytes(1000), "1.00 KB");
    assert_eq!(format_bytes(30_752_000_000), "30.8 GB");
    assert_eq!(format_bytes(605_888_202), "606 MB");
}

#[test]
fn format_bytes_matches_label_on_the_stick() {
    let s = format_bytes(30_752_000_000);
    assert!(s.ends_with(" GB"), "got {s}");
}

#[test]
fn format_bytes_switches_unit_at_each_thousand() {
    assert_eq!(format_bytes(1_500_000), "1.50 MB");
    assert_eq!(format_bytes(8_000_000_000), "8.00 GB");
    assert_eq!(format_bytes(2_000_398_934_016), "2.00 TB");
}

#[test]
fn the_percentage_never_passes_100_nor_goes_down() {
    let total = Some(3_000_000_000u64);
    let mut last = 0u8;
    for done in [0u64, 1, 29_999_999, 30_000_000, 1_500_000_000, 2_999_999_999, 3_000_000_000, 9_000_000_000] {
        let p = percent(done, total).unwrap();
        assert!(p <= 100);
        assert!(p >= last);
        last = p;
    }
    assert_eq!(percent(9_000_000_000, total), Some(100));
    assert_eq!(percent(u64::MAX, Some(1)), Some(100));
}

fn float_label(bytes: u64) -> String {
    let units = ["B", "KB", "MB", "GB", "TB"];
    if bytes < 1000 {
        return format!("{bytes} B");
    }
    let mut v = bytes as f64;
    let mut i = 0;
    while v >= 1000.0 && i < units.len() - 1 {
        v /= 1000.0;
        i += 1;
    }
    if v >= 100.0 {
        format!("{:.0} {}", v, units[i])
    } else if v >= 10.0 {
        format!("{:.1} {}", v, units[i])
    } else {
        format!("{:.2} {}", v, units[i])
    }
}

#[test]
fn labels_round_as_a_double_does() {
    assert_eq!(format_bytes(1015), "1.01 KB");
    assert_eq!(format_bytes(1125), "1.12 KB");
    assert_eq!(format_bytes(1135), "1.14 KB");
    let mut samples: Vec<u64> = vec![
        999, 1000, 1005, 1015, 1025, 1035, 9995, 10_050, 99_950, 999_499, 999_500, 999_999,
        1_000_000, 1_234_567, 30_752_000_000, 605_888_202, 8_000_000_000, 1 << 53, (1 << 53) + 1,
        u64::MAX, u64::MAX - 1, 999_999_999_999_999, 1_000_000_000_000_000,
    ];
    let mut x: u64 = 0x9E37_79B9_7F4A_7C15;
    for _ in 0..20_000 {
        x ^= x << 13;
        x ^= x >> 7;
        x ^= x << 17;
        samples.push(x >> (x % 60));
        samples.push(1000 + x % 1_000_000);
    }
    for b in samples {
        assert_eq!(format_bytes(b), float_label(b), "label of {b}");
    }
}
