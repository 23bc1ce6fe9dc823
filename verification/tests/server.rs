//! The `serve` logic, event by event.

use aquilo::battery::BatteryCurve;
use aquilo::broker;
use aquilo::calibration::Calibration;
use aquilo::config::{BrokerSettings, Config, StateSeed};
use aquilo::decimal::Decimal;
use aquilo::defaults;
use aquilo::firmware::parse_firmware;
use aquilo::history::ReadingRecord;
use aquilo::reading::{ReadError, ReadPayload, Reading};
use aquilo::server::{
    broker_conn, client_id, handle_publish, load_runtime, ping_message, seed_retained,
    seed_runtime, snapshot, statics, Action, Event, Incoming, Loaded, Outgoing, Qos,
    Session,
};
use aquilo::state::SensorState;
use aquilo::store::PersistedState;
use aquilo::topics::Topics;

const NOW: &str = "2026-06-10T20:44:35+02:00";

fn cm(s: &str) -> Decimal {
    Decimal::parse(s).unwrap()
}

fn cfg(data_dir: &str) -> Config {
    Config {
        receiver_id: "ae83fc".into(),
        sensor_id: "ae5058".into(),
        mqtt_user: "ae83fc".into(),
        mqtt_pass: "48007129".into(),
        firmware_version: "1.7.1.9_sh_en".into(),
        sensor_name: "ae5058".into(),
        radar_skip: 9,
        radar_repeat: 9,
        bind_addr: "127.0.0.1".into(),
        listen_port: 1,
        ping_interval_secs: 1,
        data_dir: data_dir.into(),
        history_max_len: 500,
        pump_out_drop_pct: 25,
        calibration: Calibration::default(),
        broker: None,
        state: StateSeed {
            lvl: cm("150.2"),
            pct: 20,
            bat: 83,
            days_left: 51,
            lvl_to_full: 110,
            lst_empty: "2026-05-30T00:17:19+02:00".into(),
            from: "node-4".into(),
        },
    }
}

fn payload(read1: i64) -> ReadPayload {
    ReadPayload {
        sensor: Some("ae5058".into()),
        version: None,
        read1: Some(read1),
        battery: Some("3770".into()),
        read_no: None,
        last_sent: None,
        amp1: None,
        temp: None,
        raw: None,
    }
}

fn reading(read1: i64) -> Reading {
    Reading::parse(&payload(read1)).unwrap()
}

fn message(topic: &str, payload: &[u8], read: Option<ReadPayload>) -> Incoming {
    Incoming { topic: topic.into(), payload: payload.to_vec(), read, now: NOW.into() }
}

fn published(actions: &[Action]) -> Vec<Outgoing> {
    actions
        .iter()
        .filter_map(|a| if let Action::Publish(m) = a { Some(m.clone()) } else { None })
        .collect()
}

#[test]
fn restart_reseeds_state_from_the_store_not_the_config_seed() {
    let c = cfg("data");

    // A prior run that computed and persisted a 152.8 cm reading.
    let prior = SensorState::compute(
        &reading(15280),
        &c.calibration,
        &BatteryCurve::default(),
        &statics(&c, "2026-06-01T00:00:00+02:00".into(), 7),
        "2026-06-09T12:00:00+02:00".into(),
    );
    let stored = PersistedState {
        history: vec![ReadingRecord {
            ts: "2026-06-09T12:00:00+02:00".into(),
            lvl: cm("152.8"),
            bat: 83,
        }],
        lst_empty: "2026-06-01T00:00:00+02:00".into(),
        last_state: Some(prior.clone()),
        calibration: c.calibration,
    };

    // The post-restart load re-seeds from the store: the /state it will
    // publish is the persisted one (152.8), not the config seed (150.2).
    let rt = load_runtime(&c, Loaded::Found(stored), NOW.into());
    assert_eq!(rt.current.to_json(), prior.to_json());
    assert_eq!(rt.current.lvl, cm("152.8"));
    assert_ne!(rt.current.lvl, c.state.lvl);
    assert_eq!(rt.lst_empty, "2026-06-01T00:00:00+02:00");
    assert_eq!(rt.history.len(), 1);
}

#[test]
fn a_reading_sequence_with_a_pump_out_updates_lst_empty() {
    let c = cfg("data");
    let battery = BatteryCurve::default();
    let mut rt = seed_runtime(&c, NOW.into());
    let seeded_empty = rt.lst_empty.clone();

    // A nearly-full reading (50 cm ≈ 93%); fullness rising, so no pump-out.
    rt.apply_reading(&c, &battery, &reading(5000), "2026-06-08T00:00:00+02:00".into());
    assert_eq!(rt.lst_empty, seeded_empty, "rising level must not reset lstEmpty");

    // Then a near-empty reading (170 cm ≈ 6%): an ~87-point drop = pump-out.
    rt.apply_reading(&c, &battery, &reading(17000), "2026-06-09T00:00:00+02:00".into());
    assert_eq!(rt.lst_empty, "2026-06-09T00:00:00+02:00", "pump-out resets lstEmpty");
    assert_eq!(
        rt.current.lst_empty, "2026-06-09T00:00:00+02:00",
        "computed /state carries the new lstEmpty"
    );
}

#[test]
fn a_first_run_is_seeded_from_the_configuration() {
    let c = cfg("data");
    for loaded in [Loaded::Missing, Loaded::Unreadable] {
        let rt = load_runtime(&c, loaded, NOW.into());
        assert_eq!(rt.current, SensorState::seed(&c, NOW.into()));
        assert_eq!(rt.current.lst_read, NOW);
        assert_eq!(rt.current.lvl, cm("150.2"));
        assert_eq!(rt.lst_empty, c.state.lst_empty);
        assert!(rt.history.is_empty());
    }
    // What was stored without a state or a pump-out falls back to the configuration too.
    let rt = load_runtime(&c, Loaded::Found(PersistedState::default()), NOW.into());
    assert_eq!(rt.current, SensorState::seed(&c, NOW.into()));
    assert_eq!(rt.lst_empty, c.state.lst_empty);
}

#[test]
fn the_history_is_capped_and_keeps_the_newest() {
    let mut c = cfg("data");
    c.history_max_len = 2;
    let battery = BatteryCurve::default();
    let mut rt = seed_runtime(&c, NOW.into());
    for (day, read1) in [(1, 15000), (2, 14000), (3, 13000)] {
        rt.apply_reading(&c, &battery, &reading(read1), format!("2026-06-0{day}T00:00:00Z"));
    }
    let kept: Vec<&str> = rt.history.iter().map(|r| r.ts.as_str()).collect();
    assert_eq!(kept, ["2026-06-02T00:00:00Z", "2026-06-03T00:00:00Z"]);
    // 130 cm, falling 10 cm a day towards 40 cm.
    assert_eq!(rt.current.days_left, 9);
    c.history_max_len = 0;
    rt.apply_reading(&c, &battery, &reading(12000), "2026-06-04T00:00:00Z".into());
    assert!(rt.history.is_empty());
    assert_eq!(rt.current.days_left, 9, "the prior estimate is kept");
}

#[test]
fn a_snapshot_restores_the_session() {
    let c = cfg("data");
    let (mut session, first) = Session::start(c.clone(), Loaded::Missing, NOW.into());
    assert_eq!(first.last_state, Some(session.runtime.current.clone()));
    session.on_event(Event::Message(message(
        "/users/ae83fc/sensors/ae83fc/read",
        b"",
        Some(payload(15280)),
    )));
    let stored = snapshot(&session.cfg, &session.runtime);
    let (restored, again) = Session::start(c, Loaded::Found(stored.clone()), "later".into());
    assert_eq!(restored.runtime.current, session.runtime.current);
    assert_eq!(restored.runtime.history, session.runtime.history);
    assert_eq!(restored.runtime.lst_empty, session.runtime.lst_empty);
    assert_eq!(again, stored);
}

#[test]
fn connecting_seeds_three_retained_messages_and_subscribes() {
    let (mut session, _) = Session::start(cfg("data"), Loaded::Missing, NOW.into());
    let actions = session.on_event(Event::Connected);
    let sent = published(&actions);
    assert_eq!(sent.len(), 3);
    for m in &sent {
        assert!(m.retain, "message on {} was not retained", m.topic);
        assert_eq!(m.qos, Qos::AtLeastOnce);
    }
    assert_eq!(sent[0].topic, "/version/czujnik_szamba/ae83fc");
    assert_eq!(sent[0].payload, b"1.7.1.9_sh_en");
    assert_eq!(sent[1].topic, "/users/ae83fc/receivers/ae83fc/radarParams");
    assert_eq!(sent[1].payload, br#"{"repeat":9,"sensor":"ae5058","skip":9}"#);
    assert_eq!(sent[2].topic, "/users/ae83fc/state");
    let v: serde_json::Value = serde_json::from_slice(&sent[2].payload).unwrap();
    assert_eq!(v["sensors"][0]["lvl"].as_f64(), Some(150.2));
    let subscribed: Vec<&str> = actions
        .iter()
        .filter_map(|a| if let Action::Subscribe(t) = a { Some(t.as_str()) } else { None })
        .collect();
    assert_eq!(
        subscribed,
        [
            "/users/ae83fc/sensors/ae83fc/read",
            "/users/ae83fc/sensors/ae83fc/log",
            "/users/ae83fc/sensors/ae83fc/connection",
        ]
    );
    assert_eq!(seed_retained(&session.cfg, &session.topics, &session.runtime.current), sent);
}

#[test]
fn a_reading_is_persisted_and_republished() {
    let (mut session, _) = Session::start(cfg("data"), Loaded::Missing, NOW.into());
    let read = "/users/ae83fc/sensors/ae83fc/read";
    let actions = session.on_event(Event::Message(message(read, b"", Some(payload(15280)))));
    assert_eq!(actions.len(), 2);
    match &actions[0] {
        Action::Persist(p) => {
            assert_eq!(p.last_state.as_ref().unwrap().lvl, cm("152.8"));
            assert_eq!(p.history.len(), 1);
        }
        _ => panic!("the state is persisted first"),
    }
    let sent = published(&actions);
    assert_eq!(sent[0].topic, "/users/ae83fc/state");
    assert!(sent[0].retain, "republished /state must be retained");
    let v: serde_json::Value = serde_json::from_slice(&sent[0].payload).unwrap();
    assert_eq!(v["sensors"][0]["lvl"].as_f64(), Some(152.8));
    assert_eq!(v["sensors"][0]["pct"], 18);
    assert_eq!(v["sensors"][0]["lstRead"], NOW);
}

#[test]
fn what_is_no_reading_changes_nothing() {
    let (mut session, _) = Session::start(cfg("data"), Loaded::Missing, NOW.into());
    let before = session.runtime.current.clone();
    let read = "/users/ae83fc/sensors/ae83fc/read";
    let broken = ReadPayload { read1: None, ..payload(0) };
    for m in [
        message(read, b"not json", None),
        message("/users/ae83fc/sensors/ae83fc/connection", b"online", None),
        message("/elsewhere", b"1.2.3", Some(payload(15280))),
    ] {
        assert!(session.on_event(Event::Message(m)).is_empty());
    }
    assert!(session.on_event(Event::Other).is_empty());
    // A payload that lacks what a reading needs is reported.
    let rejected = session.on_event(Event::Message(message(read, b"{}", Some(broken))));
    assert!(matches!(rejected[..], [Action::Rejected(ReadError::NoLevel)]));
    assert_eq!(session.runtime.current, before);
    assert!(session.runtime.history.is_empty());
    assert!(matches!(session.on_event(Event::Failed)[..], [Action::Wait(1)]));
}

#[test]
fn a_firmware_announcement_is_echoed() {
    let c = cfg("data");
    let topics = Topics::new(&c.receiver_id);
    let battery = BatteryCurve::default();
    let mut rt = seed_runtime(&c, NOW.into());
    let m = message(&topics.log, br#"{"v":"1.8.0_sh_en"}"#, None);
    let sent = published(&handle_publish(&c, &topics, &battery, &mut rt, m));
    assert_eq!(
        sent,
        [Outgoing {
            topic: "/version/czujnik_szamba/ae83fc".into(),
            payload: b"1.8.0_sh_en".to_vec(),
            qos: Qos::AtLeastOnce,
            retain: true,
        }]
    );
    let m = message(&topics.log, b"1.7.1.9_sh_en D8:BC:38:AE:83:FC", None);
    let sent = published(&handle_publish(&c, &topics, &battery, &mut rt, m));
    assert_eq!(sent.len(), 1);
    assert_eq!(sent[0].topic, "/version/czujnik_szamba/ae83fc");
    assert_eq!(sent[0].payload, b"1.7.1.9_sh_en");
    assert!(sent[0].retain);
    let m = message(&topics.log, b"boot ok", None);
    assert!(handle_publish(&c, &topics, &battery, &mut rt, m).is_empty());
}

#[test]
fn short_levels_are_written_as_they_are() {
    let mut c = cfg("data");
    let long = 999_999_999_999_999i64;
    for value in [0, 1, 7, 10, 15, 1528, 15280, 108_37, 123_456_789_012_345, 900_719_925_474_099, long - 1, long] {
        for places in 0..5 {
            for sign in [1, -1] {
                c.state.lvl = Decimal::new(sign * value, places);
                let v = SensorState::seed(&c, NOW.into()).to_json();
                let lvl = &v["sensors"][0]["lvl"];
                assert_eq!(lvl.to_string(), c.state.lvl.text());
                assert!(lvl.is_f64());
            }
        }
    }
    for level in ["-0", "0.0001", "0.000123456789012345", "100000000000000", "-123456789012345", "0.3"] {
        c.state.lvl = cm(level);
        let v = SensorState::seed(&c, NOW.into()).to_json();
        assert_eq!(v["sensors"][0]["lvl"].to_string(), c.state.lvl.text());
    }
}

#[test]
fn a_level_goes_out_as_it_is() {
    let mut c = cfg("data");
    let topics = Topics::new(&c.receiver_id);
    for (level, number) in [
        ("108.37004201868785", 108.37004201868785),
        ("0.1", 0.1),
        ("2.2250738585072014e-308", 2.2250738585072014e-308),
        ("150", 150.0),
    ] {
        c.state.lvl = cm(level);
        let sent = seed_retained(&c, &topics, &SensorState::seed(&c, NOW.into()));
        let v: serde_json::Value = serde_json::from_slice(&sent[2].payload).unwrap();
        assert_eq!(v["sensors"][0]["lvl"].as_f64(), Some(number), "{level}");
        // Reading the document and writing it again changes nothing.
        assert_eq!(serde_json::to_vec(&v).unwrap(), sent[2].payload);
    }
}

#[test]
fn firmware_is_found_in_json_or_as_a_bare_version() {
    let fw = |s: &[u8]| parse_firmware(s);
    assert_eq!(fw(br#"{"v":"1.2"}"#).as_deref(), Some("1.2"));
    assert_eq!(fw(br#"{"version":"1.3","fw":"9"}"#).as_deref(), Some("1.3"));
    assert_eq!(fw(br#"{"fw":"1.4","v":7}"#).as_deref(), Some("1.4"));
    assert_eq!(fw(br#"{"ver":""}"#).as_deref(), Some(""));
    assert_eq!(fw(b" 1.7.1.9_sh_en\n").as_deref(), Some("1.7.1.9_sh_en"));
    assert_eq!(fw(b"1.5").as_deref(), Some("1.5")); // a JSON number, but no named field
    for s in [&b""[..], b"17", b"1.7: x", b"{1.7", b"{1.7 x", b"1.7,2", b"\xff1.7", br#"{"x":"1.2"}"#] {
        assert_eq!(fw(s), None, "{s:?}");
    }
    // A version beside a MAC address is found, whichever comes first.
    assert_eq!(fw(b"1.7.1.9_sh_en D8:BC:38:AE:83:FC").as_deref(), Some("1.7.1.9_sh_en"));
    assert_eq!(fw(b"1.7.1.9_sh_en\tD8:BC:38:AE:83:FC\n").as_deref(), Some("1.7.1.9_sh_en"));
    assert_eq!(fw(b"D8:BC:38:AE:83:FC 1.7.1.9_sh_en").as_deref(), Some("1.7.1.9_sh_en"));
    // Any other line of several words announces nothing.
    for s in [&b"1.7 x"[..], b"-61.5 dBm", b"boot 1.7 D8:BC", b"1.7 1.8", b"1.7 1.7", b"a:b c:d", b"{1.7 D8:BC", b"17 D8:BC"] {
        assert_eq!(fw(s), None, "{s:?}");
    }
    assert_eq!(fw(b"v:1.7").as_deref(), Some("v:1.7"));
    let long = format!("1.{}", "x".repeat(62));
    assert_eq!(fw(long.as_bytes()), None);
    assert_eq!(fw(&long.as_bytes()[..63]).as_deref(), Some(&long[..63]));
}

#[test]
fn the_client_knows_where_to_connect() {
    let mut c = cfg("data");
    let conn = broker_conn(&c);
    assert!(conn.embedded);
    assert_eq!((conn.host.as_str(), conn.port), ("127.0.0.1", 1));
    assert_eq!(conn.user, broker::INTERNAL_USER);
    assert_eq!(conn.pass, broker::INTERNAL_PASS);
    assert_eq!(client_id(&c), "aquilo-server-ae83fc");
    c.broker = Some(BrokerSettings {
        host: "core-mosquitto".into(),
        port: 1883,
        username: "addons".into(),
        password: "secret".into(),
    });
    let conn = broker_conn(&c);
    assert!(!conn.embedded);
    assert_eq!((conn.host.as_str(), conn.port), ("core-mosquitto", 1883));
    assert_eq!((conn.user.as_str(), conn.pass.as_str()), ("addons", "secret"));
}

#[test]
fn the_keepalive_is_a_plain_ping() {
    let m = ping_message(&Topics::new("ae83fc"));
    assert_eq!(m.topic, "/ping");
    assert_eq!(m.payload, b"ping");
    assert_eq!(m.qos, Qos::AtMostOnce);
    assert!(!m.retain);
}

#[test]
fn the_embedded_broker_accepts_both_logins() {
    let mut c = cfg("data");
    let plan = broker::broker_plan(&c);
    assert_eq!(
        plan.auth,
        [
            ("ae83fc".to_string(), "48007129".to_string()),
            ("aquilo-server".to_string(), "aquilo-internal".to_string()),
        ]
    );
    assert_eq!(plan.listen, "127.0.0.1:1");
    assert_eq!(plan.name, "v4-1");
    c.mqtt_user = "aquilo-server".into();
    let plan = broker::broker_plan(&c);
    assert_eq!(plan.auth, [("aquilo-server".to_string(), "aquilo-internal".to_string())]);
}

#[test]
fn defaults_are_the_documented_ones() {
    assert_eq!(defaults::radar_skip(), 9);
    assert_eq!(defaults::radar_repeat(), 9);
    assert_eq!(defaults::bind_addr(), "0.0.0.0");
    assert_eq!(defaults::listen_port(), 1883);
    assert_eq!(defaults::ping_interval_secs(), 1200);
    assert_eq!(defaults::data_dir(), "/data");
    assert_eq!(defaults::history_max_len(), 500);
    assert_eq!(defaults::pump_out_drop_pct(), 25);
    let seed = StateSeed::default();
    assert_eq!(seed.lvl, cm("150.2"));
    assert_eq!((seed.pct, seed.bat, seed.days_left, seed.lvl_to_full), (20, 83, 0, 110));
    assert_eq!((seed.lst_empty.as_str(), seed.from.as_str()), ("", "node-4"));
}
