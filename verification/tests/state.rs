//! The computed `/state` and its JSON.

use aquilo::battery::BatteryCurve;
use aquilo::calibration::Calibration;
use aquilo::decimal::Decimal;
use aquilo::reading::{ReadPayload, Reading};
use aquilo::state::{SensorState, StaticFields};

fn cm(s: &str) -> Decimal {
    Decimal::parse(s).unwrap()
}

fn statics() -> StaticFields {
    StaticFields {
        sensor_id: "ae5058".into(),
        name: "ae5058".into(),
        lst_empty: "2026-05-30T00:17:19+02:00".into(),
        days_left: 51,
        from: "node-4".into(),
    }
}

fn payload(bytes: &[u8]) -> ReadPayload {
    let v: serde_json::Value = serde_json::from_slice(bytes).unwrap();
    let text = |key: &str| v.get(key).and_then(|x| x.as_str()).map(|s| s.to_string());
    ReadPayload {
        sensor: text("sensor"),
        version: None,
        read1: v.get("read1").and_then(|x| x.as_i64()),
        battery: text("battery"),
        read_no: None,
        last_sent: None,
        amp1: None,
        temp: None,
        raw: text("raw"),
    }
}

#[test]
fn computes_state_from_a_captured_read() {
    let bytes = br#"{"raw":"_e23_ae5058_1528_3770_59_0_73045_72976_1","sensor":"ae5058","read1":15280,"battery":"3770"}"#;
    let reading = Reading::parse(&payload(bytes)).unwrap();
    let state = SensorState::compute(
        &reading,
        &Calibration::default(),
        &BatteryCurve::default(),
        &statics(),
        "2026-06-10T20:44:35+02:00".into(),
    );

    let json = state.to_json();
    let sensor = &json["sensors"][0];
    assert_eq!(sensor["id"], "ae5058");
    assert_eq!(sensor["lvl"], 152.8);
    assert_eq!(sensor["pct"], 18);
    assert_eq!(sensor["bat"], 83);
    assert_eq!(sensor["lvlToFull"], 113);
    // Injected time and carried-through static fields appear verbatim.
    assert_eq!(sensor["lstRead"], "2026-06-10T20:44:35+02:00");
    assert_eq!(sensor["lstEmpty"], "2026-05-30T00:17:19+02:00");
    assert_eq!(sensor["daysLeft"], 51);
    assert_eq!(sensor["name"], "ae5058");
    assert_eq!(json["from"], "node-4");
}

#[test]
fn changing_calibration_changes_derived_values() {
    let reading =
        Reading::parse(&payload(br#"{"sensor":"ae5058","read1":15020,"battery":"3770"}"#)).unwrap();
    let base = SensorState::compute(
        &reading,
        &Calibration::default(),
        &BatteryCurve::default(),
        &statics(),
        "t".into(),
    );
    assert_eq!(base.pct, 20);
    assert_eq!(base.lvl_to_full, 110);

    let recal = SensorState::compute(
        &reading,
        &Calibration {
            full_dist: cm("30.0"),
            empty_dist: cm("200.0"),
        },
        &BatteryCurve::default(),
        &statics(),
        "t".into(),
    );
    assert_eq!(recal.pct, 29);
    assert_eq!(recal.lvl_to_full, 120);
}

fn sample() -> SensorState {
    SensorState {
        id: "ae5058".into(),
        name: "ae5058".into(),
        lvl: cm("152.8"),
        pct: 18,
        bat: 83,
        lst_read: "2026-06-10T20:44:35+02:00".into(),
        lst_empty: "2026-05-30T00:17:19+02:00".into(),
        days_left: 51,
        lvl_to_full: 110,
        from: "node-4".into(),
    }
}

#[test]
fn produces_vendor_state_shape() {
    let state = sample();
    let json = state.to_json();
    let sensor = &json["sensors"][0];
    assert_eq!(sensor["id"], "ae5058");
    assert_eq!(sensor["lvl"], 152.8);
    assert_eq!(sensor["lstRead"], "2026-06-10T20:44:35+02:00");
    assert_eq!(sensor["lstEmpty"], "2026-05-30T00:17:19+02:00");
    assert_eq!(sensor["daysLeft"], 51);
    assert_eq!(sensor["lvlToFull"], 110);
    assert_eq!(json["from"], "node-4");
}

#[test]
fn the_document_has_these_bytes() {
    let bytes = serde_json::to_vec(&sample().to_json()).unwrap();
    assert_eq!(
        String::from_utf8(bytes).unwrap(),
        r#"{"from":"node-4","sensors":[{"bat":83,"daysLeft":51,"id":"ae5058","lstEmpty":"2026-05-30T00:17:19+02:00","lstRead":"2026-06-10T20:44:35+02:00","lvl":152.8,"lvlToFull":110,"name":"ae5058","pct":18}]}"#
    );
}

#[test]
fn whole_levels_stay_floating_point_numbers() {
    let state = SensorState { lvl: cm("150"), ..sample() };
    assert_eq!(state.to_json()["sensors"][0]["lvl"].to_string(), "150.0");
    let huge = SensorState { lvl: cm("1e400"), ..sample() };
    assert!(huge.to_json()["sensors"][0]["lvl"].is_null());
}

#[test]
fn a_copy_is_the_same_state() {
    assert_eq!(sample().copied(), sample());
}
