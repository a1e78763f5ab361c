//! Decimal mode: fixed-point rounding, rendering, and the accumulator,
//! driven as the binary drives them, with real floating-point draws.

use randgen::accum::Accumulator;
use randgen::accum::check_scaled_for_uniqueness;
use randgen::fixed::format_scaled;
use randgen::fixed::round_scaled;

#[test]
fn formats_fixed_point_decimals() {
    assert_eq!(format_scaled(250, 2), "2.5");
    assert_eq!(format_scaled(205, 2), "2.05");
    assert_eq!(format_scaled(200, 2), "2");
    assert_eq!(format_scaled(-25, 1), "-2.5");
    assert_eq!(format_scaled(0, 2), "0");
    assert_eq!(format_scaled(12345, 0), "12345");
    assert_eq!(format_scaled(5, 3), "0.005");
    assert_eq!(format_scaled(-5000, 3), "-5");
}

#[test]
fn rounds_halves_away_from_zero() {
    assert_eq!(round_scaled(25, 1, 0), 3);
    assert_eq!(round_scaled(24, 1, 0), 2);
    assert_eq!(round_scaled(-25, 1, 0), -3);
    assert_eq!(round_scaled(-24, 1, 0), -2);
    assert_eq!(round_scaled(149, 2, 0), 1);
    assert_eq!(round_scaled(150, 2, 0), 2);
    assert_eq!(round_scaled(1234, 3, 1), 12);
    assert_eq!(round_scaled(1250, 3, 1), 13);
}

#[test]
fn rounding_at_own_precision_is_a_no_op() {
    for v in [-1250, -1, 0, 1, 25, 149, 1234567] {
        assert_eq!(round_scaled(v, 3, 3), v);
        let once = round_scaled(v, 3, 1);
        assert_eq!(round_scaled(once, 1, 1), once);
    }
}

#[test]
fn accumulator_turns_equal_values_away_when_unique() {
    let mut acc = Accumulator::new(true);
    assert!(acc.offer(10));
    assert!(!acc.offer(10));
    assert!(acc.offer(11));
    assert!(!acc.offer(10));
    assert_eq!(acc.len(), 2);
}

#[test]
fn accumulator_keeps_equal_values_without_unique() {
    let mut acc = Accumulator::new(false);
    assert!(acc.offer(10));
    assert!(acc.offer(10));
    assert_eq!(acc.len(), 2);
}

#[test]
fn scaled_uniqueness_check_scans_previous_values() {
    let seen = vec![100, 200, 300];
    assert!(!check_scaled_for_uniqueness(&200, &seen));
    assert!(check_scaled_for_uniqueness(&250, &seen));
}

#[test]
fn decimal_run_emits_count_rounded_lines_in_range() {
    let mut acc = Accumulator::new(false);
    let mut lines: Vec<String> = Vec::new();
    for _ in 0..3 {
        let num: f64 = rand::random_range(0.0..10.0);
        let scaled = (num * 100.0).round() as i64;
        assert!(acc.offer(scaled));
        lines.push(format_scaled(scaled, 2));
    }
    assert_eq!(lines.len(), 3);
    for line in &lines {
        if let Some(dot) = line.find('.') {
            assert!(line.len() - dot - 1 <= 2);
        }
        let back: f64 = line.parse().unwrap();
        assert!(0.0 <= back && back < 10.005);
    }
}

#[test]
fn unique_decimal_run_redraws_until_fresh() {
    let mut acc = Accumulator::new(true);
    let mut lines: Vec<String> = Vec::new();
    for _ in 0..5 {
        loop {
            let num: f64 = rand::random_range(0.0..1.0);
            let scaled = (num * 10.0).round() as i64;
            if acc.offer(scaled) {
                lines.push(format_scaled(scaled, 1));
                break;
            }
        }
    }
    assert_eq!(lines.len(), 5);
    for i in 0..lines.len() {
        for j in 0..i {
            assert_ne!(lines[i], lines[j]);
        }
    }
}
