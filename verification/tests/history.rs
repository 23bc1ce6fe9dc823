//! Pump-out detection and the days-left projection.

use aquilo::decimal::Decimal;
use aquilo::history::{days_left, is_pump_out, project_days, ReadingRecord};

fn cm(s: &str) -> Decimal {
    Decimal::parse(s).unwrap()
}

fn rec(ts: &str, lvl: &str) -> ReadingRecord {
    ReadingRecord {
        ts: ts.into(),
        lvl: cm(lvl),
        bat: 83,
    }
}

#[test]
fn detects_a_pump_out_from_a_large_fullness_drop() {
    // Tank was ~80% full, then emptied to ~10%: a 70-point drop.
    assert!(is_pump_out(80, 10, 25));
}

#[test]
fn normal_fluctuations_are_not_pump_outs() {
    // A few points of noise/refilling must not reset the baseline.
    assert!(!is_pump_out(20, 18, 25));
    assert!(!is_pump_out(18, 22, 25)); // filling slightly: negative drop
}

#[test]
fn the_threshold_itself_is_a_pump_out() {
    assert!(is_pump_out(50, 25, 25));
    assert!(!is_pump_out(49, 25, 25));
    assert!(is_pump_out(i64::MAX, i64::MIN, i64::MAX));
}

#[test]
fn projects_days_left_from_a_steady_fill_rate() {
    // Distance falls 10 cm/day over five days (150 → 110). From the last
    // reading (110 cm) to full (40 cm) is 70 cm → 7 days at 10 cm/day.
    let history = vec![
        rec("2026-06-01T00:00:00+02:00", "150.0"),
        rec("2026-06-02T00:00:00+02:00", "140.0"),
        rec("2026-06-03T00:00:00+02:00", "130.0"),
        rec("2026-06-04T00:00:00+02:00", "120.0"),
        rec("2026-06-05T00:00:00+02:00", "110.0"),
    ];
    assert_eq!(days_left(&history, cm("40.0")), Some(7));
}

#[test]
fn no_estimate_without_enough_history() {
    let history = vec![rec("2026-06-01T00:00:00+02:00", "150.0")];
    assert_eq!(days_left(&history, cm("40.0")), None);
}

#[test]
fn no_estimate_when_the_tank_is_not_filling() {
    // Distance growing (tank emptying) gives no days-to-full estimate.
    let history = vec![
        rec("2026-06-01T00:00:00+02:00", "110.0"),
        rec("2026-06-02T00:00:00+02:00", "120.0"),
        rec("2026-06-03T00:00:00+02:00", "130.0"),
    ];
    assert_eq!(days_left(&history, cm("40.0")), None);
}

#[test]
fn no_estimate_from_one_instant_or_a_flat_level() {
    let same = vec![
        rec("2026-06-01T00:00:00+02:00", "150"),
        rec("2026-05-31T22:00:00Z", "140"),
    ];
    assert_eq!(days_left(&same, cm("40")), None);
    let flat = vec![
        rec("2026-06-01T00:00:00+02:00", "150"),
        rec("2026-06-02T00:00:00+02:00", "150"),
    ];
    assert_eq!(days_left(&flat, cm("40")), None);
    assert_eq!(days_left(&[], cm("40")), None);
}

#[test]
fn one_bad_timestamp_spoils_the_projection() {
    let history = vec![
        rec("2026-06-01T00:00:00+02:00", "150"),
        rec("yesterday", "140"),
        rec("2026-06-03T00:00:00+02:00", "130"),
    ];
    assert_eq!(days_left(&history, cm("40")), None);
}

#[test]
fn offsets_count() {
    // The second reading is a day later, written in another time zone.
    let history = vec![
        rec("2026-06-01T00:00:00+02:00", "100"),
        rec("2026-06-01T22:00:00Z", "90.5"),
    ];
    assert_eq!(days_left(&history, cm("40")), Some(5)); // 50.5 / 9.5 = 5.3
}

#[test]
fn a_full_tank_has_no_days_left() {
    let history = vec![
        rec("2026-06-01T00:00:00Z", "50"),
        rec("2026-06-02T00:00:00Z", "30"),
    ];
    assert_eq!(days_left(&history, cm("40")), Some(0));
}

#[test]
fn a_noisy_history_is_fitted() {
    // Days 0, 1, 2 with levels 100, 80, 90: the fitted rate is 5 cm a day.
    let day = 86_400;
    let levels = [cm("100"), cm("80"), cm("90")];
    assert_eq!(project_days(&[0, day, 2 * day], &levels, cm("40")), Some(10));
    // The start of time does not matter.
    let t0 = 1_780_000_000;
    assert_eq!(project_days(&[t0, t0 + day, t0 + 2 * day], &levels, cm("40")), Some(10));
}

#[test]
fn a_crawling_rate_saturates() {
    let times = [0, i64::MAX];
    let levels = [cm("1e300"), cm("9.999999999999999e299")];
    assert_eq!(project_days(&times, &levels, cm("-1e301")), Some(i64::MAX));
}
