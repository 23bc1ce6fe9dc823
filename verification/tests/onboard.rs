//! Onboarding: facts, what is written from them, and the observe handshake.

use aquilo::calibration::Calibration;
use aquilo::config::{Config, StateSeed};
use aquilo::decimal::Decimal;
use aquilo::firmware::firmware_from_log;
use aquilo::mqtt_wire::{self, Connect, Decoder, Packet, Publish, Subscribe};
use aquilo::onboard::{
    default_seed_state, finalize, learn_from_cloud, learn_from_device, outputs, render_config,
    written_after, Facts, ObserveSession, OnboardOptions, Reply,
};
use aquilo::reading::ReadPayload;
use aquilo::server::{load_runtime, radar_params, Loaded};
use aquilo::topics::Topics;

fn cm(s: &str) -> Decimal {
    Decimal::parse(s).unwrap()
}

fn opts() -> OnboardOptions {
    OnboardOptions {
        bind_addr: "127.0.0.1".into(),
        listen_port: 1883,
        out_config: "/tmp/unused.toml".into(),
        data_dir: "data".into(),
    }
}

fn device_connect() -> Connect {
    Connect {
        client_id: "CieczSensorae83fc".into(),
        username: Some("ae83fc".into()),
        password: Some("48007129".into()),
    }
}

/// The fields of a `/read` payload, by a plain JSON parse.
fn payload(bytes: &[u8]) -> Option<ReadPayload> {
    let v: serde_json::Value = serde_json::from_slice(bytes).ok()?;
    let text = |key: &str| v.get(key).and_then(|x| x.as_str()).map(|s| s.to_string());
    Some(ReadPayload {
        sensor: text("sensor"),
        version: text("v"),
        read1: v.get("read1").and_then(|x| x.as_i64()),
        battery: text("battery"),
        read_no: None,
        last_sent: None,
        amp1: None,
        temp: None,
        raw: text("raw"),
    })
}

fn device_publish(f: &mut Facts, topic: &str, bytes: &[u8], now: &str) {
    f.apply_device_publish(topic, bytes, payload(bytes).as_ref(), now);
}

fn table(config: &str) -> toml::Table {
    config.parse().expect("generated config must parse")
}

fn text<'a>(t: &'a toml::Table, key: &str) -> &'a str {
    t[key].as_str().unwrap()
}

#[test]
fn learn_facts_from_connect_and_cloud_state_yield_a_loadable_config() {
    let mut f = Facts::default();
    f.apply_device_connect(&device_connect());
    device_publish(
        &mut f,
        "/users/ae83fc/sensors/ae83fc/log",
        b"1.7.1.9_sh_en D8:BC:38:AE:83:FC",
        "2026-06-11T12:00:00+02:00",
    );
    f.apply_cloud_publish(
        "/users/ae83fc/receivers/ae83fc/radarParams",
        br#"{"sensor":"ae5058","skip":9,"repeat":9,"from":"ovh4-docker"}"#,
    );
    f.apply_cloud_publish(
        "/users/ae83fc/state",
        br#"{"sensors":[{"id":"ae5058","lvl":150.2,"pct":20,"bat":83,"lstRead":"x","lstEmpty":"2026-05-30T00:17:19+02:00","daysLeft":51,"name":"ae5058","lvlToFull":110}],"from":"node-4"}"#,
    );
    assert!(f.is_complete(), "missing: {:?}", f.missing());

    let rendered = render_config(&f, &opts()).unwrap();
    // `serve` consumes it with no hand-editing.
    let cfg = table(&rendered);
    assert_eq!(text(&cfg, "receiver_id"), "ae83fc");
    assert_eq!(text(&cfg, "sensor_id"), "ae5058");
    assert_eq!(text(&cfg, "mqtt_user"), "ae83fc");
    assert_eq!(text(&cfg, "mqtt_pass"), "48007129");
    assert_eq!(text(&cfg, "firmware_version"), "1.7.1.9_sh_en");
    assert_eq!(cfg["state"]["lvl"].as_float(), Some(150.2));
    assert_eq!(cfg["state"]["pct"].as_integer(), Some(20));
    assert_eq!(cfg["state"]["days_left"].as_integer(), Some(51));
    assert_eq!(cfg["state"]["lst_empty"].as_str(), Some("2026-05-30T00:17:19+02:00"));
    assert_eq!(cfg["calibration"]["full_dist"].as_float(), Some(40.0));
}

#[test]
fn observe_facts_reconstruct_identity_from_device_only() {
    let mut f = Facts::default();
    // No cloud: identity comes purely from the device CONNECT + /log + /read.
    f.apply_device_connect(&device_connect());
    assert_eq!(f.receiver_id.as_deref(), Some("ae83fc"));
    device_publish(
        &mut f,
        "/users/ae83fc/sensors/ae83fc/log",
        br#"{"v":"1.7.1.9_sh_en","mac":"D8:BC:38:AE:83:FC"}"#,
        "2026-06-11T12:00:00+02:00",
    );
    assert!(!f.is_complete(), "no reading yet → no sensor id/seed");

    device_publish(
        &mut f,
        "/users/ae83fc/sensors/ae83fc/read",
        br#"{"sensor":"ae5058","read1":15280,"battery":"3770","raw":"_e23_ae5058_1528_3770_59_0_73045_72976_1"}"#,
        "2026-06-11T12:01:00+02:00",
    );
    assert!(f.is_complete(), "missing: {:?}", f.missing());
    assert_eq!(f.sensor_id.as_deref(), Some("ae5058"));

    let cfg = table(&render_config(&f, &opts()).unwrap());
    assert_eq!(text(&cfg, "firmware_version"), "1.7.1.9_sh_en");
    assert_eq!(text(&cfg, "sensor_id"), "ae5058");
    // Reading 152.8 + default calibration → pct 18, lvlToFull 113.
    assert_eq!(cfg["state"]["lvl"].as_float(), Some(152.8));
    assert_eq!(cfg["state"]["pct"].as_integer(), Some(18));
    assert_eq!(cfg["state"]["lvl_to_full"].as_integer(), Some(113));
    // lstEmpty unknown offline → anchored at the reading time (self-heals).
    assert_eq!(cfg["state"]["lst_empty"].as_str(), Some("2026-06-11T12:01:00+02:00"));
}

#[test]
fn firmware_comes_from_the_device_not_the_cloud_version() {
    // Device announces e23 in /log; cloud later echoes a different /version.
    // Firmware is taken from the device's own announcement.
    let mut f = Facts::default();
    device_publish(&mut f, "/x/log", b"7.7.7_dev AA:BB", "t");
    f.apply_cloud_publish("/version/czujnik_szamba/ae83fc", b"9.9.9_cloud");
    assert_eq!(f.firmware.as_deref(), Some("7.7.7_dev"));
}

#[test]
fn write_outputs_produces_a_state_file_serve_can_load() {
    let mut f = Facts::default();
    f.apply_device_connect(&device_connect());
    device_publish(&mut f, "/x/log", b"1.7.1.9_sh_en", "t");
    device_publish(
        &mut f,
        "/x/read",
        br#"{"sensor":"ae5058","read1":15280,"battery":"3770"}"#,
        "2026-06-11T12:01:00+02:00",
    );

    let out = outputs(&f, &opts(), "2026-06-11T12:02:00+02:00").unwrap();
    assert_eq!(text(&table(&out.config), "sensor_id"), "ae5058");

    // The state is what serve re-seeds from on startup.
    let last = out.state.last_state.unwrap();
    assert_eq!(last.id, "ae5058");
    assert_eq!(last.lvl, cm("152.8"));
    assert_eq!(last.lst_read, "2026-06-11T12:02:00+02:00");
    assert!(out.state.history.is_empty());
    assert_eq!(out.state.lst_empty, "2026-06-11T12:01:00+02:00");
}

#[test]
fn the_whole_configuration_is_rendered() {
    let mut f = Facts::default();
    f.apply_device_connect(&device_connect());
    device_publish(&mut f, "/x/log", b"1.7.1.9_sh_en", "t");
    device_publish(&mut f, "/x/read", br#"{"sensor":"ae5058","read1":15280,"battery":"3770"}"#, "T");
    f.radar_repeat = Some(-3);
    let config = render_config(&f, &opts()).unwrap();
    let body = config.split_once("\n\n").unwrap().1;
    assert_eq!(config.lines().take_while(|l| l.starts_with('#')).count(), 4);
    assert_eq!(
        body,
        "receiver_id = \"ae83fc\"\nsensor_id = \"ae5058\"\nmqtt_user = \"ae83fc\"\n\
         mqtt_pass = \"48007129\"\nfirmware_version = \"1.7.1.9_sh_en\"\n\
         sensor_name = \"ae5058\"\n\nradar_skip = 9\nradar_repeat = -3\n\n\
         bind_addr = \"0.0.0.0\"\nlisten_port = 1883\nping_interval_secs = 1200\n\n\
         data_dir = \"data\"\nhistory_max_len = 500\npump_out_drop_pct = 25\n\n\
         [calibration]\nfull_dist = 40.0\nempty_dist = 178.0\n\n\
         [state]\nlvl = 152.8\npct = 18\nbat = 83\ndays_left = 0\nlvl_to_full = 113\n\
         lst_empty = \"T\"\nfrom = \"node-4\"\n"
    );
}

#[test]
fn incomplete_facts_name_what_is_missing() {
    let f = Facts::default();
    let all = ["receiver_id", "mqtt_user", "mqtt_pass", "firmware", "sensor_id", "state"];
    assert_eq!(f.missing(), all);
    assert_eq!(render_config(&f, &opts()).unwrap_err(), all);
    assert!(outputs(&f, &opts(), "t").is_err());
    assert!(finalize(&f, &opts(), false, "t").is_none());
    let mut f = f;
    f.apply_device_connect(&device_connect());
    assert_eq!(f.missing(), ["firmware", "sensor_id", "state"]);
}

#[test]
fn outputs_are_written_once() {
    let mut f = Facts::default();
    f.apply_device_connect(&device_connect());
    device_publish(&mut f, "/x/log", b"1.0", "t");
    device_publish(&mut f, "/x/read", br#"{"sensor":"s","read1":1,"battery":"1"}"#, "t");
    assert!(finalize(&f, &opts(), false, "t").is_some());
    assert!(finalize(&f, &opts(), true, "t").is_none());
    assert!(written_after(&f, false, true));
    assert!(written_after(&f, true, false));
    // After a failure a later packet tries again.
    assert!(!written_after(&f, false, false));
    // Nothing is written before the facts are complete.
    assert!(!written_after(&Facts::default(), false, true));
    assert!(written_after(&Facts::default(), true, false));
}

#[test]
fn the_announced_firmware_replaces_the_echo() {
    let mut f = Facts::default();
    f.apply_cloud_publish("/version/czujnik_szamba/ae83fc", b"9.9.9_cloud");
    assert_eq!(f.firmware.as_deref(), Some("9.9.9_cloud"));
    device_publish(&mut f, "/x/log", b"boot ok", "t");
    assert_eq!(f.firmware.as_deref(), Some("9.9.9_cloud"));
    device_publish(&mut f, "/x/log", b"7.7.7_dev AA:BB", "t");
    assert_eq!(f.firmware.as_deref(), Some("7.7.7_dev"));
    f.apply_cloud_publish("/version/czujnik_szamba/ae83fc", b"9.9.9_cloud");
    device_publish(&mut f, "/x/log", b"8.8.8_dev AA:BB", "t");
    assert_eq!(f.firmware.as_deref(), Some("7.7.7_dev"));
}

#[test]
fn the_cloud_state_is_the_seed_before_and_after_a_reading() {
    let state = br#"{"sensors":[{"id":"ae5058","lvl":150.2,"pct":20,"bat":83,"lstEmpty":"e","daysLeft":51,"name":"tank","lvlToFull":110}],"from":"node-4"}"#;
    let read = br#"{"sensor":"ffffff","read1":15280,"battery":"3770"}"#;
    let mut read_first = Facts::default();
    device_publish(&mut read_first, "/x/read", read, "t");
    assert_eq!(read_first.sensor_id.as_deref(), Some("ffffff"));
    assert_eq!(read_first.seed.as_ref().unwrap().lvl, cm("152.8"));
    read_first.apply_cloud_publish("/users/ae83fc/state", state);
    let mut state_first = Facts::default();
    state_first.apply_cloud_publish("/users/ae83fc/state", state);
    device_publish(&mut state_first, "/x/read", read, "t");
    assert_eq!(format!("{read_first:?}"), format!("{state_first:?}"));
    let seed = read_first.seed.unwrap();
    assert_eq!(seed.lvl, cm("150.2"));
    assert_eq!((seed.pct, seed.bat, seed.days_left, seed.lvl_to_full), (20, 83, 51, 110));
    assert_eq!((seed.lst_empty.as_str(), seed.from.as_str()), ("e", "node-4"));
    assert_eq!(read_first.sensor_id.as_deref(), Some("ae5058"));
    assert_eq!(read_first.sensor_name.as_deref(), Some("tank"));
}

#[test]
fn readings_keep_what_the_cloud_left_out() {
    let mut f = Facts::default();
    device_publish(&mut f, "/x/read", br#"{"sensor":"s","read1":15280,"battery":"3770"}"#, "t");
    f.apply_cloud_publish("/x/state", br#"{"sensors":[{"lvl":1}]}"#);
    assert_eq!(f.sensor_id.as_deref(), Some("s"));
    assert_eq!(f.sensor_name.as_deref(), Some("s"));
    assert_eq!(f.seed.unwrap().lvl, cm("1"));
}

#[test]
fn the_receiver_id_falls_back_to_the_client_id() {
    let anonymous = |id: &str| Connect { client_id: id.into(), username: None, password: None };
    let mut f = Facts::default();
    f.apply_device_connect(&anonymous("CieczSensorae83fc"));
    assert_eq!(f.receiver_id.as_deref(), Some("ae83fc"));
    assert_eq!(f.client_id.as_deref(), Some("CieczSensorae83fc"));
    assert_eq!(f.mqtt_user, None);
    let mut g = Facts::default();
    g.apply_device_connect(&anonymous("other"));
    assert_eq!(g.receiver_id.as_deref(), Some("other"));
    // What is known stays.
    g.apply_device_connect(&device_connect());
    assert_eq!(g.receiver_id.as_deref(), Some("other"));
    assert_eq!(g.mqtt_user.as_deref(), Some("ae83fc"));
}

#[test]
fn cloud_messages_fill_the_gaps() {
    let mut f = Facts::default();
    f.apply_cloud_publish("/version/x", b"  ");
    assert_eq!(f.firmware, None);
    f.apply_cloud_publish("/version/x", b" 9.9.9_cloud\n");
    assert_eq!(f.firmware.as_deref(), Some("9.9.9_cloud"));
    f.apply_cloud_publish("/a/radarParams", br#"{"sensor":"","skip":3,"repeat":4.5}"#);
    assert_eq!(f.sensor_id, None);
    assert_eq!((f.radar_skip, f.radar_repeat), (Some(3), None));
    f.apply_cloud_publish("/a/state", b"not json");
    f.apply_cloud_publish("/a/state", br#"{"sensors":[]}"#);
    f.apply_cloud_publish("/a/state", br#"{"sensors":{"0":1}}"#);
    f.apply_cloud_publish("/a/other", br#"{"sensors":[{}]}"#);
    assert!(f.seed.is_none());
    f.apply_cloud_publish("/a/state", br#"{"sensors":[{"lvl":150,"pct":"20","id":7}]}"#);
    let seed = f.seed.as_ref().unwrap();
    assert_eq!(seed.lvl, cm("150"));
    assert_eq!((seed.pct, seed.bat, seed.days_left, seed.lvl_to_full), (0, 0, 0, 0));
    assert_eq!((seed.lst_empty.as_str(), seed.from.as_str()), ("", "node-4"));
    assert_eq!(f.sensor_id, None);
    f.apply_cloud_publish("/a/state", br#"{"sensors":[{"lvl":"high","id":"late","name":"n"}],"from":"x"}"#);
    assert_eq!(f.seed.as_ref().unwrap().lvl, cm("150"));
    assert_eq!(f.sensor_id.as_deref(), Some("late"));
    assert_eq!(f.sensor_name.as_deref(), Some("n"));
}

#[test]
fn levels_of_the_cloud_are_taken_as_they_are_written() {
    for (json, level) in [("1e-7", "1e-7"), ("-12.25", "-12.25"), ("0.0", "0"), ("-0.0", "-0"), ("2.5e20", "2.5e20"), ("7", "7")] {
        let mut f = Facts::default();
        f.apply_cloud_state(format!(r#"{{"sensors":[{{"lvl":{json}}}]}}"#).as_bytes());
        assert_eq!(f.seed.unwrap().lvl, cm(level), "{json}");
    }
    let mut f = Facts::default();
    f.apply_cloud_state(br#"{"sensors":[{"lvl":"150.2"}]}"#);
    assert_eq!(f.seed.unwrap().lvl, cm("0"));
}

#[test]
fn firmware_in_a_log_line_is_the_first_version_like_word() {
    let fw = |s: &[u8]| firmware_from_log(s);
    assert_eq!(fw(b"1.7.1.9_sh_en D8:BC:38:AE:83:FC").as_deref(), Some("1.7.1.9_sh_en"));
    assert_eq!(fw(b"boot 1.2:3 ok\t2.0").as_deref(), Some("2.0"));
    assert_eq!(fw(br#"{"ver":"x","fw":"y"}"#).as_deref(), Some("y"));
    assert_eq!(fw(b"no version here"), None);
    assert_eq!(fw(b"\xff\xfe 1.2"), None);
    assert_eq!(fw(b"1.5").as_deref(), Some("1.5"));
}

fn send(reply: &Reply) -> &[u8] {
    match reply {
        Reply::Send(bytes) => bytes,
        _ => panic!("expected bytes to send"),
    }
}

#[test]
fn observe_answers_the_handshake_and_seeds_once() {
    let mut s = ObserveSession::new();
    let r = s.on_packet(&Packet::Connect(device_connect()), None, "t");
    assert_eq!(r.len(), 1);
    assert_eq!(send(&r[0]), mqtt_wire::connack());
    assert!(s.on_chunk_end("t").is_empty());

    let sub = Packet::Subscribe(Subscribe { packet_id: 9, topics: vec!["/a".into(), "/b".into()] });
    let r = s.on_packet(&sub, None, "t");
    assert_eq!(send(&r[0]), mqtt_wire::suback(9, 2));
    assert!(s.on_chunk_end("t").is_empty(), "no firmware yet");

    let log = |id: Option<u16>| Packet::Publish(Publish {
        topic: "/users/ae83fc/sensors/ae83fc/log".into(),
        payload: b"1.7.1.9_sh_en".to_vec(),
        qos: if id.is_some() { 1 } else { 0 },
        retain: false,
        packet_id: id,
    });
    let r = s.on_packet(&log(Some(5)), None, "t");
    assert_eq!(r.len(), 2);
    assert_eq!(send(&r[0]), mqtt_wire::puback(5));
    assert!(matches!(r[1], Reply::Finalize));
    assert!(matches!(s.on_packet(&log(None), None, "t")[..], [Reply::Finalize]));

    let sent = s.on_chunk_end("2026-06-10T20:44:35+02:00");
    assert_eq!(sent.len(), 3);
    let mut dec = Decoder::new();
    let packets: Vec<Packet> = sent.iter().flat_map(|b| dec.push(b)).collect();
    let published: Vec<(&str, &[u8])> = packets
        .iter()
        .map(|p| match p {
            Packet::Publish(p) => {
                assert!(p.retain);
                (p.topic.as_str(), p.payload.as_slice())
            }
            _ => panic!("expected a publish"),
        })
        .collect();
    assert_eq!(published[0], ("/version/czujnik_szamba/ae83fc", &b"1.7.1.9_sh_en"[..]));
    assert_eq!(published[1].0, "/users/ae83fc/receivers/ae83fc/radarParams");
    assert_eq!(published[1].1, br#"{"repeat":9,"sensor":"ae83fc","skip":9}"#);
    assert_eq!(published[2].0, "/users/ae83fc/state");
    let v: serde_json::Value = serde_json::from_slice(published[2].1).unwrap();
    assert_eq!(v["sensors"][0]["id"], "ae83fc");
    assert_eq!(v["sensors"][0]["lvl"], 150.2);
    assert_eq!(v["sensors"][0]["lstEmpty"], "");
    assert!(s.on_chunk_end("t").is_empty(), "seeded once");

    assert_eq!(send(&s.on_packet(&Packet::PingReq, None, "t")[0]), mqtt_wire::pingresp());
    assert!(s.on_packet(&Packet::Other { kind: 5 }, None, "t").is_empty());
    assert!(matches!(s.on_packet(&Packet::Disconnect, None, "t")[..], [Reply::Close]));
}

#[test]
fn learn_listens_to_both_sides() {
    let mut f = Facts::default();
    learn_from_device(&mut f, &Packet::Connect(device_connect()), None, "t");
    learn_from_device(&mut f, &Packet::PingReq, None, "t");
    let publish = |topic: &str, payload: &[u8]| Packet::Publish(Publish {
        topic: topic.into(),
        payload: payload.to_vec(),
        qos: 0,
        retain: true,
        packet_id: None,
    });
    learn_from_cloud(&mut f, &publish("/version/czujnik_szamba/ae83fc", b"1.7.1.9_sh_en"));
    learn_from_cloud(&mut f, &Packet::Connect(device_connect()));
    let radar = br#"{"sensor":"ae5058","skip":9,"repeat":9,"from":"ovh4-docker"}"#;
    learn_from_cloud(&mut f, &publish("/users/ae83fc/receivers/ae83fc/radarParams", radar));
    let state = br#"{"sensors":[{"id":"ae5058","lvl":150.2,"pct":20,"bat":83,"lstRead":"2026-06-10T20:44:35+02:00","lstEmpty":"2026-05-30T00:17:19+02:00","daysLeft":51,"name":"ae5058","lvlToFull":110}],"from":"node-4"}"#;
    learn_from_cloud(&mut f, &publish("/users/ae83fc/state", state));
    assert!(f.is_complete());
    let out = finalize(&f, &opts(), false, "t").unwrap();
    let last = out.state.last_state.unwrap();
    assert_eq!(last.lvl, cm("150.2"));
    assert_eq!(last.days_left, 51);
    // What the cloud's state was read as is written as the same document.
    let again: serde_json::Value = serde_json::from_slice(state).unwrap();
    let mut json = last.to_json();
    json["sensors"][0]["lstRead"] = again["sensors"][0]["lstRead"].clone();
    assert_eq!(json, again);
}

#[test]
fn radar_params_that_are_sent_are_recovered() {
    let topics = Topics::new("ae83fc");
    let radar = radar_params("ae5058", 3, -4);
    let mut f = Facts::default();
    f.apply_cloud_publish(&topics.radar_params, &serde_json::to_vec(&radar).unwrap());
    assert_eq!(f.sensor_id.as_deref(), Some("ae5058"));
    assert_eq!((f.radar_skip, f.radar_repeat), (Some(3), Some(-4)));
}

#[test]
fn a_state_document_is_read_back() {
    let state = default_seed_state("ae5058", "t");
    let mut f = Facts::default();
    f.apply_state_document(&state.to_json());
    let seed = f.seed.unwrap();
    assert_eq!(seed.lvl, state.lvl);
    assert_eq!((seed.pct, seed.bat, seed.days_left, seed.lvl_to_full), (20, 83, 0, 110));
    assert_eq!((seed.lst_empty.as_str(), seed.from.as_str()), ("", "node-4"));
    assert_eq!(f.sensor_id.as_deref(), Some("ae5058"));
    assert_eq!(f.sensor_name.as_deref(), Some("ae5058"));
}

#[test]
fn repeated_packets_add_nothing() {
    let mut f = Facts::default();
    let connect = Packet::Connect(device_connect());
    learn_from_device(&mut f, &connect, None, "t");
    let once = format!("{f:?}");
    learn_from_device(&mut f, &connect, None, "later");
    assert_eq!(format!("{f:?}"), once);
}

#[test]
fn serve_starts_from_what_was_written() {
    let mut f = Facts::default();
    f.apply_device_connect(&device_connect());
    device_publish(&mut f, "/x/log", b"1.0", "t");
    device_publish(&mut f, "/x/read", br#"{"sensor":"ae5058","read1":15280,"battery":"3770"}"#, "t");
    let out = finalize(&f, &opts(), false, "w").unwrap();
    let cfg = Config {
        receiver_id: "ae83fc".into(),
        sensor_id: "ae5058".into(),
        mqtt_user: "ae83fc".into(),
        mqtt_pass: "48007129".into(),
        firmware_version: "1.0".into(),
        sensor_name: "ae5058".into(),
        radar_skip: 9,
        radar_repeat: 9,
        bind_addr: "0.0.0.0".into(),
        listen_port: 1883,
        ping_interval_secs: 1200,
        data_dir: "data".into(),
        history_max_len: 500,
        pump_out_drop_pct: 25,
        calibration: Calibration::default(),
        broker: None,
        state: StateSeed::default(),
    };
    let rt = load_runtime(&cfg, Loaded::Found(out.state), "now".into());
    assert_eq!(rt.current.lvl, cm("152.8"));
    assert_eq!(rt.current.pct, 18);
    assert_eq!(rt.current.lst_read, "w");
    assert_eq!(rt.lst_empty, "t");
}

#[test]
fn the_rendered_configuration_reads_back_as_the_facts() {
    let mut f = Facts::default();
    f.apply_device_connect(&device_connect());
    device_publish(&mut f, "/x/log", b"1.7.1.9_sh_en D8:BC:38:AE:83:FC", "t");
    f.apply_cloud_publish("/x/radarParams", br#"{"sensor":"ae5058","skip":3,"repeat":-4}"#);
    f.apply_cloud_publish(
        "/x/state",
        br#"{"sensors":[{"lvl":0.25,"pct":-1,"bat":83,"daysLeft":51,"lvlToFull":110,"lstEmpty":"e","name":"tank [1] # = x"}],"from":"node-7"}"#,
    );
    let cfg = table(&render_config(&f, &opts()).unwrap());
    assert_eq!(text(&cfg, "receiver_id"), "ae83fc");
    assert_eq!(text(&cfg, "sensor_id"), "ae5058");
    assert_eq!(text(&cfg, "mqtt_user"), "ae83fc");
    assert_eq!(text(&cfg, "mqtt_pass"), "48007129");
    assert_eq!(text(&cfg, "firmware_version"), "1.7.1.9_sh_en");
    assert_eq!(text(&cfg, "sensor_name"), "tank [1] # = x");
    assert_eq!(text(&cfg, "bind_addr"), "0.0.0.0");
    assert_eq!(text(&cfg, "data_dir"), "data");
    for (key, value) in [
        ("radar_skip", 3),
        ("radar_repeat", -4),
        ("listen_port", 1883),
        ("ping_interval_secs", 1200),
        ("history_max_len", 500),
        ("pump_out_drop_pct", 25),
    ] {
        assert_eq!(cfg[key].as_integer(), Some(value), "{key}");
    }
    assert_eq!(cfg["calibration"]["full_dist"].as_float(), Some(40.0));
    assert_eq!(cfg["calibration"]["empty_dist"].as_float(), Some(178.0));
    let state = &cfg["state"];
    assert_eq!(state["lvl"].as_float(), Some(0.25));
    for (key, value) in [("pct", -1), ("bat", 83), ("days_left", 51), ("lvl_to_full", 110)] {
        assert_eq!(state[key].as_integer(), Some(value), "{key}");
    }
    assert_eq!(state["lst_empty"].as_str(), Some("e"));
    assert_eq!(state["from"].as_str(), Some("node-7"));
    assert!(!cfg.contains_key("broker"));
    assert_eq!(cfg.len(), 16);
}
