//! Decoding `/read` payloads.

use aquilo::decimal::Decimal;
use aquilo::reading::{RawFrame, RawFrameError, RawRead, ReadError, ReadPayload, Reading};

const CAPTURED: &[u8] = br#"{"salt":"abc","raw":"_e23_ae5058_1502_3770_59_0_73044_72976_1_2_1_0_0_0","v":"e23","sensor":"ae5058","read1":15020,"battery":"3770","crc":true,"amp1":59,"temp":0,"readNo":73044,"lastSent":72976,"rev":1,"r":2,"rssi":-75,"wifi":-80,"snr":5}"#;

fn cm(s: &str) -> Decimal {
    Decimal::parse(s).unwrap()
}

/// The fields of a payload, by a plain JSON parse.
fn payload(bytes: &[u8]) -> ReadPayload {
    let v: serde_json::Value = serde_json::from_slice(bytes).unwrap();
    let text = |key: &str| v.get(key).and_then(|x| x.as_str()).map(|s| s.to_string());
    let number = |key: &str| v.get(key).and_then(|x| x.as_i64());
    ReadPayload {
        sensor: text("sensor"),
        version: text("v"),
        read1: number("read1"),
        battery: text("battery"),
        read_no: number("readNo"),
        last_sent: number("lastSent"),
        amp1: number("amp1"),
        temp: number("temp"),
        raw: text("raw"),
    }
}

fn empty() -> ReadPayload {
    payload(b"{}")
}

#[test]
fn parses_captured_read_into_structured_reading() {
    let r = Reading::parse(&payload(CAPTURED)).unwrap();
    assert_eq!(r.sensor, "ae5058");
    assert_eq!(r.version.as_deref(), Some("e23"));
    assert_eq!(r.level_cm, cm("150.2"));
    assert_eq!(r.battery_mv, 3770);
    assert_eq!(r.read_no, Some(73044));
    assert_eq!(r.last_sent, Some(72976));
    assert_eq!(r.amp1, Some(59));
    assert_eq!(r.temp, Some(0));
}

#[test]
fn decodes_the_raw_string_positionally() {
    let frame = RawFrame::parse("_e23_ae5058_1502_3770_59_0_73044_72976_1_2_1_0_0_0").unwrap();
    assert_eq!(
        frame,
        RawFrame {
            version: "e23".into(),
            sensor: "ae5058".into(),
            level_mm: 1502,
            battery_mv: 3770,
            amp: 59,
            temp: 0,
            read_no: 73044,
            last_sent: 72976,
            rest: vec![1, 2, 1, 0, 0, 0],
        }
    );
}

#[test]
fn raw_level_and_json_read1_agree() {
    let r = Reading::parse(&payload(CAPTURED)).unwrap();
    let frame = r.raw.as_ref().unwrap();
    assert_eq!(r.level_cm, Decimal::new(frame.level_mm, 1));
    assert_eq!(r.level_cm.text(), format!("{:?}", frame.level_mm as f64 / 10.0));
}

#[test]
fn falls_back_to_raw_when_json_fields_missing() {
    let bytes = br#"{"raw":"_e23_ae5058_1528_3770_59_0_73045_72976_1"}"#;
    let r = Reading::parse(&payload(bytes)).unwrap();
    assert_eq!(r.sensor, "ae5058");
    assert_eq!(r.level_cm, cm("152.8"));
    assert_eq!(r.battery_mv, 3770);
    assert_eq!(r.read_no, Some(73045));
}

#[test]
fn rejects_payload_without_level() {
    let bytes = br#"{"sensor":"ae5058","battery":"3770"}"#;
    assert!(Reading::parse(&payload(bytes)).is_err());
    assert_eq!(Reading::parse(&payload(bytes)), Err(ReadError::NoLevel));
}

#[test]
fn rejects_short_raw_string() {
    assert!(RawFrame::parse("_e23_ae5058_1502").is_err());
    assert_eq!(
        RawFrame::parse("_e23_ae5058_1502"),
        Err(RawFrameError::TooFewFields { found: 3 })
    );
}

#[test]
fn parses_captured_read_and_derives_level() {
    let bytes = br#"{"salt":"x","raw":"_e23_ae5058_1502_3770","sensor":"ae5058","read1":15020,"battery":"3770"}"#;
    let p = payload(bytes);
    let reading = RawRead { read1: p.read1, sensor: p.sensor, battery: p.battery, raw: p.raw };
    assert_eq!(reading.read1, Some(15020));
    assert_eq!(reading.sensor.as_deref(), Some("ae5058"));
    assert_eq!(reading.level(), Some(cm("150.2")));
    assert_eq!(RawRead { read1: None, ..reading }.level(), None);
}

#[test]
fn underscores_at_the_ends_shift_nothing() {
    let plain = RawFrame::parse("e23_ae5058_1502_3770_59_0_73044_72976").unwrap();
    assert_eq!(RawFrame::parse("_e23_ae5058_1502_3770_59_0_73044_72976").unwrap(), plain);
    assert_eq!(RawFrame::parse("e23_ae5058_1502_3770_59_0_73044_72976__").unwrap(), plain);
    assert!(plain.rest.is_empty());
}

#[test]
fn names_the_first_field_that_is_no_integer() {
    assert_eq!(
        RawFrame::parse("_e23_ae5058_x_3770_y_0_1_2"),
        Err(RawFrameError::NotAnInteger { index: 2 })
    );
    assert_eq!(
        RawFrame::parse("_e23_ae5058_1_3770_59_0_1_2z_w"),
        Err(RawFrameError::NotAnInteger { index: 7 })
    );
    assert_eq!(
        RawFrame::parse("_e23_ae5058_1_3770_59_0_1_2_3_w"),
        Err(RawFrameError::TrailingNotAnInteger)
    );
}

#[test]
fn json_fields_win_over_the_raw_string() {
    let r = Reading::parse(&ReadPayload {
        sensor: Some("other".into()),
        version: Some("e24".into()),
        read1: Some(100),
        battery: Some("4000".into()),
        read_no: Some(1),
        last_sent: Some(2),
        amp1: Some(3),
        temp: Some(4),
        raw: Some("_e23_ae5058_1502_3770_59_0_73044_72976".into()),
    })
    .unwrap();
    assert_eq!(r.sensor, "other");
    assert_eq!(r.version.as_deref(), Some("e24"));
    assert_eq!(r.level_cm, cm("1"));
    assert_eq!(r.battery_mv, 4000);
    assert_eq!((r.read_no, r.last_sent, r.amp1, r.temp), (Some(1), Some(2), Some(3), Some(4)));
}

#[test]
fn every_payload_error_comes_up() {
    let raw_error = Reading::parse(&ReadPayload { raw: Some("_e23".into()), ..empty() });
    assert_eq!(raw_error, Err(ReadError::Raw(RawFrameError::TooFewFields { found: 1 })));
    assert_eq!(Reading::parse(&empty()), Err(ReadError::NoLevel));
    let level = ReadPayload { read1: Some(15020), ..empty() };
    assert_eq!(Reading::parse(&level), Err(ReadError::NoBattery));
    let words = ReadPayload { battery: Some("3.7V".into()), ..level.clone() };
    assert_eq!(Reading::parse(&words), Err(ReadError::BatteryNotAnInteger));
    let battery = ReadPayload { battery: Some("3770".into()), ..level };
    assert_eq!(Reading::parse(&battery), Err(ReadError::NoSensor));
}
