//! The wire codec on concrete packets.

use aquilo::mqtt_wire::{
    connack, frame, next_frame, pingresp, puback, publish, suback, Connect, Decoder, Frame, Packet,
    Publish, Subscribe,
};

/// Builds a CONNECT packet the way an MQTT 3.1.1 client would, so the decoder
/// is tested against the real on-wire layout rather than its own assumptions.
fn connect_bytes(client_id: &str, user: &str, pass: &str) -> Vec<u8> {
    let mut body = Vec::new();
    let str_field = |b: &mut Vec<u8>, s: &str| {
        b.push((s.len() >> 8) as u8);
        b.push(s.len() as u8);
        b.extend_from_slice(s.as_bytes());
    };
    str_field(&mut body, "MQTT");
    body.push(0x04); // level 4 (3.1.1)
    body.push(0xc2); // flags: username + password + clean session
    body.extend_from_slice(&[0x00, 0x3c]); // keep-alive 60s
    str_field(&mut body, client_id);
    str_field(&mut body, user);
    str_field(&mut body, pass);
    frame(0x10, &body)
}

#[test]
fn decodes_a_connect_with_credentials() {
    let bytes = connect_bytes("CieczSensorae83fc", "ae83fc", "48007129");
    let mut dec = Decoder::new();
    let packets = dec.push(&bytes);
    assert_eq!(
        packets,
        vec![Packet::Connect(Connect {
            client_id: "CieczSensorae83fc".into(),
            username: Some("ae83fc".into()),
            password: Some("48007129".into()),
        })]
    );
}

#[test]
fn decodes_a_retained_publish() {
    let bytes = publish("/users/ae83fc/state", br#"{"sensors":[]}"#, true);
    let mut dec = Decoder::new();
    let packets = dec.push(&bytes);
    assert_eq!(
        packets,
        vec![Packet::Publish(Publish {
            topic: "/users/ae83fc/state".into(),
            payload: br#"{"sensors":[]}"#.to_vec(),
            qos: 0,
            retain: true,
            packet_id: None,
        })]
    );
}

#[test]
fn decodes_a_subscribe_with_several_topics() {
    // SUBSCRIBE: header 0x82, packet id 1, two topics each followed by a QoS byte.
    let mut body = vec![0x00, 0x01];
    for t in ["/ping", "/users/ae83fc/state"] {
        body.push((t.len() >> 8) as u8);
        body.push(t.len() as u8);
        body.extend_from_slice(t.as_bytes());
        body.push(0x00);
    }
    let bytes = frame(0x82, &body);
    let mut dec = Decoder::new();
    assert_eq!(
        dec.push(&bytes),
        vec![Packet::Subscribe(Subscribe {
            packet_id: 1,
            topics: vec!["/ping".into(), "/users/ae83fc/state".into()],
        })]
    );
}

#[test]
fn reassembles_packets_split_across_chunks() {
    let bytes = connect_bytes("CieczSensorae83fc", "ae83fc", "48007129");
    let (a, b) = bytes.split_at(5);
    let mut dec = Decoder::new();
    assert!(dec.push(a).is_empty(), "partial packet yields nothing yet");
    let packets = dec.push(b);
    assert_eq!(packets.len(), 1);
    assert!(matches!(packets[0], Packet::Connect(_)));
}

#[test]
fn splits_multiple_packets_in_one_chunk() {
    let mut bytes = publish("/a", b"1", false);
    bytes.extend(pingresp()); // any second packet; decodes as PingReq's cousin
    bytes.extend(publish("/b", b"2", false));
    let mut dec = Decoder::new();
    let packets = dec.push(&bytes);
    assert_eq!(packets.len(), 3);
    assert!(matches!(&packets[0], Packet::Publish(p) if p.topic == "/a"));
    assert!(matches!(&packets[2], Packet::Publish(p) if p.topic == "/b"));
}

#[test]
fn ping_and_disconnect_decode_to_their_variants() {
    let mut dec = Decoder::new();
    assert_eq!(dec.push(&[0xc0, 0x00]), vec![Packet::PingReq]);
    assert_eq!(dec.push(&[0xe0, 0x00]), vec![Packet::Disconnect]);
}

#[test]
fn suback_grants_one_code_per_topic() {
    assert_eq!(suback(7, 3), vec![0x90, 0x05, 0x00, 0x07, 0x00, 0x00, 0x00]);
}

#[test]
fn fixed_replies_are_exact() {
    assert_eq!(connack(), vec![0x20, 0x02, 0x00, 0x00]);
    assert_eq!(puback(0x1234), vec![0x40, 0x02, 0x12, 0x34]);
    assert_eq!(pingresp(), vec![0xd0, 0x00]);
    assert_eq!(publish("/a", b"hi", false), vec![0x30, 6, 0, 2, b'/', b'a', b'h', b'i']);
}

#[test]
fn long_bodies_get_a_longer_length_field() {
    let body = vec![7u8; 321];
    let bytes = frame(0xf0, &body);
    assert_eq!(&bytes[..3], &[0xf0, 0xc1, 0x02]);
    assert_eq!(bytes.len(), 324);
    let mut dec = Decoder::new();
    assert_eq!(dec.push(&bytes), vec![Packet::Other { kind: 15 }]);
}

#[test]
fn every_split_of_a_stream_gives_the_same_packets() {
    let mut bytes = connect_bytes("CieczSensorae83fc", "ae83fc", "48007129");
    bytes.extend(publish("/users/ae83fc/state", &[0u8; 200], true));
    bytes.extend([0xc0, 0x00]);
    let whole = Decoder::new().push(&bytes);
    assert_eq!(whole.len(), 3);
    for at in 0..=bytes.len() {
        let mut dec = Decoder::new();
        let mut packets = dec.push(&bytes[..at]);
        packets.extend(dec.push(&bytes[at..]));
        assert_eq!(packets, whole, "split at {at}");
    }
}

#[test]
fn a_will_is_skipped() {
    let mut body = Vec::new();
    for part in [&b"\x00\x04MQTT"[..], &[0x04, 0xc6, 0x00, 0x3c], b"\x00\x02id", b"\x00\x01t", b"\x00\x02mm", b"\x00\x01u", b"\x00\x01p"] {
        body.extend_from_slice(part);
    }
    assert_eq!(
        Decoder::new().push(&frame(0x10, &body)),
        vec![Packet::Connect(Connect {
            client_id: "id".into(),
            username: Some("u".into()),
            password: Some("p".into()),
        })]
    );
}

#[test]
fn a_broken_length_field_drops_the_buffer() {
    let mut dec = Decoder::new();
    assert!(dec.push(&[0x30, 0xff, 0xff, 0xff, 0xff, 0x01]).is_empty());
    // The decoder starts over with what comes next.
    assert_eq!(dec.push(&[0xc0, 0x00]), vec![Packet::PingReq]);
}

#[test]
fn malformed_text_is_replaced() {
    let mut bytes = publish("/a", b"x", false);
    bytes[5] = 0xff; // the second byte of the topic
    assert_eq!(
        Decoder::new().push(&bytes),
        vec![Packet::Publish(Publish {
            topic: "/\u{fffd}".into(),
            payload: b"x".to_vec(),
            qos: 0,
            retain: false,
            packet_id: None,
        })]
    );
}

#[test]
fn an_acknowledged_publish_carries_its_id() {
    let body = [0x00, 0x02, b'/', b'a', 0x12, 0x34, b'x'];
    assert_eq!(
        Decoder::new().push(&frame(0x33, &body)),
        vec![Packet::Publish(Publish {
            topic: "/a".into(),
            payload: b"x".to_vec(),
            qos: 1,
            retain: true,
            packet_id: Some(0x1234),
        })]
    );
    // Without room for the id the packet is framed and dropped.
    assert!(Decoder::new().push(&frame(0x32, &body[..5])).is_empty());
}

#[test]
fn a_packet_that_is_cut_short_waits_for_the_rest() {
    for body in [0usize, 1, 127, 128, 300, 16_384] {
        let bytes = publish("t", &vec![7u8; body], true);
        for cut in [1, 2, 3, 4, bytes.len() / 2, bytes.len() - 1] {
            let mut dec = Decoder::new();
            assert!(dec.push(&bytes[..cut]).is_empty(), "{body} cut at {cut}");
            assert_eq!(dec.push(&bytes[cut..]).len(), 1, "{body} cut at {cut}");
        }
    }
}

#[test]
fn a_frame_is_found_at_the_front_of_a_stream() {
    let first = publish("t", b"one", true);
    let mut stream = first.clone();
    stream.extend_from_slice(&pingresp());
    match next_frame(&stream) {
        Frame::Packet(Some(Packet::Publish(p)), total) => {
            assert_eq!((p.topic.as_str(), p.payload.as_slice()), ("t", &b"one"[..]));
            assert_eq!(total, first.len());
        }
        _ => panic!("a packet"),
    }
    for cut in 0..first.len() {
        assert!(matches!(next_frame(&first[..cut]), Frame::Incomplete), "cut at {cut}");
    }
    assert!(matches!(next_frame(&[0x30, 0xff, 0xff, 0xff, 0xff]), Frame::Corrupt));
}
