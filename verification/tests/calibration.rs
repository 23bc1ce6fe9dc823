//! The level formulas on the captured samples and at their edges.

use aquilo::calibration::Calibration;
use aquilo::decimal::Decimal;

fn cm(s: &str) -> Decimal {
    Decimal::parse(s).unwrap()
}

/// The captured vendor samples: `(lvl, pct, lvlToFull)`.
const SAMPLES: &[(&str, i64, i64)] = &[("152.8", 18, 113), ("150.4", 20, 110), ("150.2", 20, 110)];

#[test]
fn reproduces_captured_samples() {
    let cal = Calibration::default();
    for &(lvl, pct, lvl_to_full) in SAMPLES {
        assert_eq!(cal.pct(cm(lvl)), pct, "pct for lvl {lvl}");
        assert_eq!(cal.lvl_to_full(cm(lvl)), lvl_to_full, "lvlToFull for lvl {lvl}");
    }
}

#[test]
fn calibration_drives_the_formulas() {
    let lvl = cm("150.2");
    let base = Calibration::default();
    let stretched = Calibration {
        full_dist: cm("30.0"),
        empty_dist: cm("200.0"),
    };
    assert_ne!(stretched.pct(lvl), base.pct(lvl));
    assert_eq!(stretched.pct(lvl), 29); // (200-150.2)/170*100 = 29.3 -> 29
    assert_eq!(stretched.lvl_to_full(lvl), 120); // 150.2 - 30 = 120.2 -> 120
}

#[test]
fn clamps_percentage_to_0_100() {
    let cal = Calibration::default();
    assert_eq!(cal.pct(cm("10.0")), 100); // below full distance -> overfull, clamped
    assert_eq!(cal.pct(cm("250.0")), 0); // beyond empty distance -> clamped
}

#[test]
fn default_distances_are_the_documented_ones() {
    let cal = Calibration::default();
    assert_eq!(cal.full_dist, cm("40.0"));
    assert_eq!(cal.empty_dist, cm("178.0"));
    assert_eq!(cal.pct(cm("40")), 100);
    assert_eq!(cal.pct(cm("178")), 0);
    assert_eq!(cal.lvl_to_full(cm("40")), 0);
}

#[test]
fn halves_round_away_from_zero() {
    let cal = Calibration { full_dist: cm("0"), empty_dist: cm("200") };
    assert_eq!(cal.pct(cm("199")), 1); // 0.5
    assert_eq!(cal.pct(cm("197")), 2); // 1.5
    assert_eq!(cal.lvl_to_full(cm("0.5")), 1);
    assert_eq!(cal.lvl_to_full(cm("-0.5")), -1);
    assert_eq!(cal.lvl_to_full(cm("-0.49")), 0);
}

#[test]
fn equal_distances_are_full_or_empty() {
    let cal = Calibration { full_dist: cm("50"), empty_dist: cm("50") };
    assert_eq!(cal.pct(cm("49.9")), 100);
    assert_eq!(cal.pct(cm("50")), 0);
    assert_eq!(cal.pct(cm("50.1")), 0);
}

#[test]
fn swapped_distances_turn_the_scale() {
    let cal = Calibration { full_dist: cm("178"), empty_dist: cm("40") };
    assert_eq!(cal.pct(cm("178")), 100);
    assert_eq!(cal.pct(cm("40")), 0);
    assert_eq!(cal.pct(cm("109")), 50);
}

#[test]
fn huge_and_tiny_distances_do_not_overflow() {
    let cal = Calibration { full_dist: cm("1e-300"), empty_dist: cm("1e300") };
    assert_eq!(cal.pct(cm("5e299")), 50);
    assert_eq!(cal.lvl_to_full(cm("1e300")), i64::MAX);
    assert_eq!(cal.lvl_to_full(cm("-1e300")), i64::MIN);
}
