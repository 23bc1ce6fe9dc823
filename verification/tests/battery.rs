//! The battery curve on concrete voltages.

use aquilo::battery::BatteryCurve;

#[test]
fn reproduces_the_captured_point() {
    assert_eq!(BatteryCurve::default().percent(3770), 83);
}

#[test]
fn clamps_outside_the_table() {
    let curve = BatteryCurve::default();
    assert_eq!(curve.percent(3000), 0);
    assert_eq!(curve.percent(5000), 100);
}

#[test]
fn interpolates_and_is_monotonic() {
    let curve = BatteryCurve::default();
    // Halfway between 3300 (0%) and 3770 (83%).
    assert_eq!(curve.percent(3535), 42);
    let mut last = -1;
    for mv in (3200..=4300).step_by(50) {
        let pct = curve.percent(mv);
        assert!(pct >= last, "curve must not decrease at {mv} mV");
        last = pct;
    }
}

#[test]
fn accepts_unsorted_custom_breakpoints() {
    let curve = BatteryCurve::new(vec![(4000, 100), (3000, 0)]);
    assert_eq!(curve.percent(3500), 50);
}

#[test]
fn every_default_breakpoint_is_met() {
    let curve = BatteryCurve::default();
    assert_eq!(curve.percent(3300), 0);
    assert_eq!(curve.percent(4200), 100);
    assert_eq!(curve.percent(3985), 92); // 83 + 17 / 2 = 91.5
    assert_eq!(curve.clone().percent(3301), 0); // 83 / 470 = 0.18
    assert_eq!(curve.percent(3303), 1); // 3 * 83 / 470 = 0.53
}

#[test]
fn a_single_breakpoint_is_a_constant() {
    let curve = BatteryCurve::new(vec![(3700, 50)]);
    assert_eq!(curve.percent(0), 50);
    assert_eq!(curve.percent(3700), 50);
    assert_eq!(curve.percent(9000), 50);
}

#[test]
fn breakpoints_at_one_voltage_keep_their_order() {
    // Below 3700 the line runs to the first of the two, above it from the second.
    let curve = BatteryCurve::new(vec![(4000, 100), (3700, 10), (3700, 70), (3000, 0)]);
    assert_eq!(curve.percent(3700), 10);
    assert_eq!(curve.percent(3350), 5);
    assert_eq!(curve.percent(3850), 85);
}

#[test]
fn extreme_breakpoints_do_not_overflow() {
    let curve = BatteryCurve::new(vec![(i64::MIN, i64::MIN), (i64::MAX, i64::MAX)]);
    assert_eq!(curve.percent(0), 0);
    assert_eq!(curve.percent(-12345), -12345);
    let falling = BatteryCurve::new(vec![(0, 10), (4, 0)]);
    assert_eq!(falling.percent(1), 8); // 7.5 rounds away from zero
}
