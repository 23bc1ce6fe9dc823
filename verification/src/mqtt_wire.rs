//! Minimal MQTT 3.x wire codec: just enough to onboard a device.
//!
//! It understands the control packets the device uses (CONNECT, PUBLISH, SUBSCRIBE,
//! PINGREQ, DISCONNECT) and encodes the handful of replies a broker owes it.
//! CONNECT parsing skips the protocol name and level, so it handles both 3.1 and
//! 3.1.1 clients.

use vstd::prelude::*;
use vstd::slice::{slice_subrange, slice_to_vec};

use crate::text;

verus! {

/// A decoded control packet. Packets that are framed but not interpreted surface as
/// [`Packet::Other`] so the stream stays in sync.
#[derive(Clone, Debug, PartialEq)]
pub enum Packet {
    Connect(Connect),
    Publish(Publish),
    Subscribe(Subscribe),
    PingReq,
    Disconnect,
    Other { kind: u8 },
}

/// The fields recovered from a CONNECT: the device's identity and credentials.
#[derive(Clone, Debug, PartialEq)]
pub struct Connect {
    pub client_id: String,
    pub username: Option<String>,
    pub password: Option<String>,
}

/// A PUBLISH in either direction.
#[derive(Clone, Debug, PartialEq)]
pub struct Publish {
    pub topic: String,
    pub payload: Vec<u8>,
    pub qos: u8,
    pub retain: bool,
    /// Present only for QoS > 0, where it must be echoed in the PUBACK.
    pub packet_id: Option<u16>,
}

/// A SUBSCRIBE with the topics it names, in order.
#[derive(Clone, Debug, PartialEq)]
pub struct Subscribe {
    pub packet_id: u16,
    pub topics: Vec<String>,
}

/// Mathematical content of a [`Connect`].
pub struct ConnectView {
    pub client_id: Seq<char>,
    pub username: Option<Seq<char>>,
    pub password: Option<Seq<char>>,
}

/// Mathematical content of a [`Publish`].
pub struct PublishView {
    pub topic: Seq<char>,
    pub payload: Seq<u8>,
    pub qos: u8,
    pub retain: bool,
    pub packet_id: Option<u16>,
}

/// Mathematical content of a [`Subscribe`].
pub struct SubscribeView {
    pub packet_id: u16,
    pub topics: Seq<Seq<char>>,
}

/// Mathematical content of a [`Packet`].
pub enum PacketView {
    Connect(ConnectView),
    Publish(PublishView),
    Subscribe(SubscribeView),
    PingReq,
    Disconnect,
    Other { kind: u8 },
}

impl View for Connect {
    type V = ConnectView;

    open spec fn view(&self) -> ConnectView {
        ConnectView {
            client_id: self.client_id@,
            username: text::optional_text(self.username),
            password: text::optional_text(self.password),
        }
    }
}

impl View for Publish {
    type V = PublishView;

    open spec fn view(&self) -> PublishView {
        PublishView {
            topic: self.topic@,
            payload: self.payload@,
            qos: self.qos,
            retain: self.retain,
            packet_id: self.packet_id,
        }
    }
}

impl View for Subscribe {
    type V = SubscribeView;

    open spec fn view(&self) -> SubscribeView {
        SubscribeView { packet_id: self.packet_id, topics: text::texts(self.topics@) }
    }
}

impl View for Packet {
    type V = PacketView;

    open spec fn view(&self) -> PacketView {
        match *self {
            Packet::Connect(c) => PacketView::Connect(c@),
            Packet::Publish(p) => PacketView::Publish(p@),
            Packet::Subscribe(s) => PacketView::Subscribe(s@),
            Packet::PingReq => PacketView::PingReq,
            Packet::Disconnect => PacketView::Disconnect,
            Packet::Other { kind } => PacketView::Other { kind },
        }
    }
}

/// The contents of a list of packets.
pub open spec fn packets(list: Seq<Packet>) -> Seq<PacketView> {
    list.map_values(|p: Packet| p@)
}

// --- length-prefixed fields ---

/// The big-endian 16-bit number at `off`.
pub open spec fn be16(b: Seq<u8>, off: int) -> int {
    b[off] as int * 256 + b[off + 1] as int
}

/// Where the length-prefixed field that starts at `off` ends, if all of it is there.
pub open spec fn field_end(b: Seq<u8>, off: int) -> Option<int> {
    if off + 2 <= b.len() && off + 2 + be16(b, off) <= b.len() {
        Some(off + 2 + be16(b, off))
    } else {
        None
    }
}

/// The content of the length-prefixed field that starts at `off`.
pub open spec fn field(b: Seq<u8>, off: int) -> Seq<u8> {
    b.subrange(off + 2, off + 2 + be16(b, off))
}

/// Reads a big-endian 16-bit number.
fn join16(hi: u8, lo: u8) -> (n: u16)
    ensures
        n as int == hi as int * 256 + lo as int,
{
    let h: u16 = hi as u16;
    let l: u16 = lo as u16;
    assert((h << 8u16) | l == h * 256 + l) by (bit_vector)
        requires
            h < 256,
            l < 256,
    ;
    (h << 8) | l
}

/// Reads a 2-byte-length-prefixed byte string, advancing `off` past it.
fn read_bytes<'a>(b: &'a [u8], off: &mut usize) -> (r: Option<&'a [u8]>)
    ensures
        match r {
            Some(bytes) => field_end(b@, *old(off) as int) == Some(*final(off) as int)
                && bytes@ == field(b@, *old(off) as int),
            None => field_end(b@, *old(off) as int) is None && *final(off) == *old(off),
        },
{
    if *off >= b.len() || b.len() - *off < 2 {
        return None;
    }
    let len: usize = join16(b[*off], b[*off + 1]) as usize;
    let start: usize = *off + 2;
    if b.len() - start < len {
        return None;
    }
    let end: usize = start + len;
    *off = end;
    Some(slice_subrange(b, start, end))
}

/// Reads a 2-byte-length-prefixed string, advancing `off` past it.
fn read_str(b: &[u8], off: &mut usize) -> (r: Option<String>)
    ensures
        match r {
            Some(text) => field_end(b@, *old(off) as int) == Some(*final(off) as int)
                && text@ == text::decoded(field(b@, *old(off) as int)),
            None => field_end(b@, *old(off) as int) is None && *final(off) == *old(off),
        },
{
    match read_bytes(b, off) {
        Some(bytes) => Some(text::lossy_text(bytes)),
        None => None,
    }
}

// --- packet bodies ---

/// The field at `off` when `present`, and where the next one starts; an absent field
/// takes no bytes.
pub open spec fn optional_field_end(b: Seq<u8>, off: int, present: bool) -> Option<int> {
    if present {
        field_end(b, off)
    } else {
        Some(off)
    }
}

/// The text of the field at `off` when `present`.
pub open spec fn optional_field_text(b: Seq<u8>, off: int, present: bool) -> Option<Seq<char>> {
    if present {
        Some(text::decoded(field(b, off)))
    } else {
        None
    }
}

/// Where the payload fields of a CONNECT start: after the protocol name, the level,
/// the flags and the two keep-alive bytes.
pub open spec fn connect_client_id_at(body: Seq<u8>) -> Option<int> {
    match field_end(body, 0) {
        Some(name_end) => if name_end + 4 <= body.len() {
            Some(name_end + 4)
        } else {
            None
        },
        None => None,
    }
}

/// The CONNECT that a packet body holds: protocol name, level, flags, keep-alive, then
/// the client id and the will, username and password that the flags announce.
pub open spec fn connect_of(body: Seq<u8>) -> Option<ConnectView> {
    match connect_client_id_at(body) {
        Some(id_at) => {
            let flags = body[id_at - 3];
            match field_end(body, id_at) {
                Some(will_at) => match optional_field_end(body, will_at, flags & 0x04 != 0) {
                    Some(message_at) => match optional_field_end(
                        body,
                        message_at,
                        flags & 0x04 != 0,
                    ) {
                        Some(user_at) => match optional_field_end(
                            body,
                            user_at,
                            flags & 0x80 != 0,
                        ) {
                            Some(pass_at) => match optional_field_end(
                                body,
                                pass_at,
                                flags & 0x40 != 0,
                            ) {
                                Some(_) => Some(
                                    ConnectView {
                                        client_id: text::decoded(field(body, id_at)),
                                        username: optional_field_text(
                                            body,
                                            user_at,
                                            flags & 0x80 != 0,
                                        ),
                                        password: optional_field_text(
                                            body,
                                            pass_at,
                                            flags & 0x40 != 0,
                                        ),
                                    },
                                ),
                                None => None,
                            },
                            None => None,
                        },
                        None => None,
                    },
                    None => None,
                },
                None => None,
            }
        },
        None => None,
    }
}

/// The PUBLISH that a packet with these header flags and body holds: the topic, a
/// packet id when the QoS is above 0, then the payload to the end.
pub open spec fn publish_of(flags: u8, body: Seq<u8>) -> Option<PublishView> {
    let qos = (flags >> 1) & 0x03;
    match field_end(body, 0) {
        Some(at) => {
            let payload_at = if qos > 0 {
                at + 2
            } else {
                at
            };
            if payload_at <= body.len() {
                Some(
                    PublishView {
                        topic: text::decoded(field(body, 0)),
                        payload: body.subrange(payload_at, body.len() as int),
                        qos,
                        retain: flags & 0x01 != 0,
                        packet_id: if qos > 0 {
                            Some(be16(body, at) as u16)
                        } else {
                            None
                        },
                    },
                )
            } else {
                None
            }
        },
        None => None,
    }
}

/// The topics from `off` on, each followed by one requested-QoS byte. That byte may be
/// missing after the last topic.
pub open spec fn topics_from(body: Seq<u8>, off: int) -> Option<Seq<Seq<char>>>
    decreases body.len() + 1 - off,
{
    if off >= body.len() {
        Some(Seq::empty())
    } else {
        match field_end(body, off) {
            Some(end) => match topics_from(body, end + 1) {
                Some(rest) => Some(seq![text::decoded(field(body, off))] + rest),
                None => None,
            },
            None => None,
        }
    }
}

/// The SUBSCRIBE that a packet body holds: a packet id, then the topics.
pub open spec fn subscribe_of(body: Seq<u8>) -> Option<SubscribeView> {
    if body.len() < 2 {
        None
    } else {
        match topics_from(body, 2) {
            Some(topics) => Some(SubscribeView { packet_id: be16(body, 0) as u16, topics }),
            None => None,
        }
    }
}

/// The packet that a frame of this kind, with these flags and this body, holds.
pub open spec fn packet_of(kind: u8, flags: u8, body: Seq<u8>) -> Option<PacketView> {
    if kind == 1 {
        match connect_of(body) {
            Some(c) => Some(PacketView::Connect(c)),
            None => None,
        }
    } else if kind == 3 {
        match publish_of(flags, body) {
            Some(p) => Some(PacketView::Publish(p)),
            None => None,
        }
    } else if kind == 8 {
        match subscribe_of(body) {
            Some(s) => Some(PacketView::Subscribe(s)),
            None => None,
        }
    } else if kind == 12 {
        Some(PacketView::PingReq)
    } else if kind == 14 {
        Some(PacketView::Disconnect)
    } else {
        Some(PacketView::Other { kind })
    }
}

/// The content of an optional packet.
pub open spec fn optional_packet(p: Option<Packet>) -> Option<PacketView> {
    match p {
        Some(p) => Some(p@),
        None => None,
    }
}

fn decode_connect(body: &[u8]) -> (r: Option<Packet>)
    ensures
        optional_packet(r) == packet_of(1, 0, body@),
{
    let mut off: usize = 0;
    if read_bytes(body, &mut off).is_none() {
        return None;
    }
    if body.len() - off < 4 {
        return None;
    }
    let flags: u8 = body[off + 1];
    off = off + 4;

    let client_id = match read_str(body, &mut off) {
        Some(s) => s,
        None => return None,
    };
    if flags & 0x04 != 0 {
        if read_bytes(body, &mut off).is_none() {
            return None;
        }
        if read_bytes(body, &mut off).is_none() {
            return None;
        }
    }
    let username = if flags & 0x80 != 0 {
        match read_str(body, &mut off) {
            Some(s) => Some(s),
            None => return None,
        }
    } else {
        None
    };
    let password = if flags & 0x40 != 0 {
        match read_str(body, &mut off) {
            Some(s) => Some(s),
            None => return None,
        }
    } else {
        None
    };
    Some(Packet::Connect(Connect { client_id, username, password }))
}

fn decode_publish(flags: u8, body: &[u8]) -> (r: Option<Packet>)
    ensures
        optional_packet(r) == packet_of(3, flags, body@),
{
    let qos: u8 = (flags >> 1) & 0x03;
    let retain = flags & 0x01 != 0;
    let mut off: usize = 0;
    let topic = match read_str(body, &mut off) {
        Some(s) => s,
        None => return None,
    };
    let packet_id = if qos > 0 {
        if body.len() - off < 2 {
            return None;
        }
        let id: u16 = join16(body[off], body[off + 1]);
        off = off + 2;
        Some(id)
    } else {
        None
    };
    let payload = slice_to_vec(slice_subrange(body, off, body.len()));
    Some(Packet::Publish(Publish { topic, payload, qos, retain, packet_id }))
}

fn decode_subscribe(body: &[u8]) -> (r: Option<Packet>)
    ensures
        optional_packet(r) == packet_of(8, 0, body@),
{
    if body.len() < 2 {
        return None;
    }
    let packet_id: u16 = join16(body[0], body[1]);
    let mut off: usize = 2;
    let mut topics: Vec<String> = Vec::new();
    proof {
        if let Some(rest) = topics_from(body@, 2) {
            assert(text::texts(topics@) + rest =~= rest);
        }
    }
    while off < body.len()
        invariant
            2 <= off <= body.len(),
            packet_id as int == be16(body@, 0),
            match topics_from(body@, off as int) {
                Some(rest) => topics_from(body@, 2) == Some(text::texts(topics@) + rest),
                None => topics_from(body@, 2) is None,
            },
        decreases body.len() - off,
    {
        let ghost before = topics@;
        let topic = match read_str(body, &mut off) {
            Some(s) => s,
            None => return None,
        };
        let ghost end = off as int;
        // The requested-QoS byte, which may be cut off after the last topic.
        if off < body.len() {
            off = off + 1;
        }
        topics.push(topic);
        proof {
            assert(topics_from(body@, off as int) == topics_from(body@, end + 1));
            assert(text::texts(topics@) =~= text::texts(before) + seq![topic@]);
            if let Some(rest) = topics_from(body@, off as int) {
                assert(text::texts(before) + (seq![topic@] + rest) =~= text::texts(topics@) + rest);
            }
        }
    }
    assert(text::texts(topics@) + Seq::<Seq<char>>::empty() =~= text::texts(topics@));
    Some(Packet::Subscribe(Subscribe { packet_id, topics }))
}

fn decode_body(kind: u8, flags: u8, body: &[u8]) -> (r: Option<Packet>)
    ensures
        optional_packet(r) == packet_of(kind, flags, body@),
{
    match kind {
        1 => decode_connect(body),
        3 => decode_publish(flags, body),
        8 => decode_subscribe(body),
        12 => Some(Packet::PingReq),
        14 => Some(Packet::Disconnect),
        other => Some(Packet::Other { kind: other }),
    }
}

// --- framing ---

/// A remaining-length field read from the front of a byte string.
pub enum LengthField {
    /// The field is complete: its value, and how many bytes it takes.
    Known { value: nat, size: nat },
    /// The bytes end inside the field.
    Incomplete,
    /// The field does not end within the bytes it may take.
    Corrupt,
}

/// Reads a little-endian base-128 number in at most `limit` bytes, each but the last
/// with its top bit set.
pub open spec fn length_field(s: Seq<u8>, limit: nat) -> LengthField
    decreases limit,
{
    if limit == 0 {
        LengthField::Corrupt
    } else if s.len() == 0 {
        LengthField::Incomplete
    } else if s[0] & 0x80 == 0 {
        LengthField::Known { value: (s[0] & 0x7f) as nat, size: 1 }
    } else {
        match length_field(s.skip(1), (limit - 1) as nat) {
            LengthField::Known { value, size } => LengthField::Known {
                value: (s[0] & 0x7f) as nat + 128 * value,
                size: size + 1,
            },
            other => other,
        }
    }
}

/// The most bytes a remaining-length field may take.
pub const MAX_LENGTH_BYTES: usize = 4;

/// The front of a byte stream, seen as a frame.
pub enum FrameView {
    /// A full packet of `total` bytes; `None` when its body is malformed.
    Packet { packet: Option<PacketView>, total: nat },
    /// Not enough bytes yet for a full packet.
    Incomplete,
    /// A malformed length field.
    Corrupt,
}

/// The frame at the front of a byte stream: one header byte (packet kind and flags),
/// the remaining-length field, then that many bytes of body.
pub open spec fn frame_of(buf: Seq<u8>) -> FrameView {
    if buf.len() == 0 {
        FrameView::Incomplete
    } else {
        match length_field(buf.skip(1), MAX_LENGTH_BYTES as nat) {
            LengthField::Known { value, size } => {
                let total = 1 + size + value;
                if total <= buf.len() {
                    FrameView::Packet {
                        packet: packet_of(
                            buf[0] >> 4,
                            buf[0] & 0x0f,
                            buf.subrange(1 + size as int, total as int),
                        ),
                        total,
                    }
                } else {
                    FrameView::Incomplete
                }
            },
            LengthField::Incomplete => FrameView::Incomplete,
            LengthField::Corrupt => FrameView::Corrupt,
        }
    }
}

/// Zero or one packets, as a list.
pub open spec fn as_list(p: Option<PacketView>) -> Seq<PacketView> {
    match p {
        Some(p) => seq![p],
        None => Seq::empty(),
    }
}

/// The packets that are complete in a byte stream, in order.
pub open spec fn complete_packets(buf: Seq<u8>) -> Seq<PacketView>
    decreases buf.len(),
{
    match frame_of(buf) {
        FrameView::Packet { packet, total } => as_list(packet) + complete_packets(
            buf.skip(total as int),
        ),
        _ => Seq::empty(),
    }
}

/// The bytes that follow the complete packets: the start of a packet still to come, or
/// nothing once the stream is corrupt.
pub open spec fn leftover(buf: Seq<u8>) -> Seq<u8>
    decreases buf.len(),
{
    match frame_of(buf) {
        FrameView::Packet { total, .. } => leftover(buf.skip(total as int)),
        FrameView::Incomplete => buf,
        FrameView::Corrupt => Seq::empty(),
    }
}

/// Whether no malformed length field is reached in a byte stream.
pub open spec fn in_sync(buf: Seq<u8>) -> bool
    decreases buf.len(),
{
    match frame_of(buf) {
        FrameView::Packet { total, .. } => in_sync(buf.skip(total as int)),
        FrameView::Incomplete => true,
        FrameView::Corrupt => false,
    }
}

/// What stands at the front of a buffer.
pub enum Frame {
    /// A full packet and how many bytes it takes up; no packet where its body is malformed.
    Packet(Option<Packet>, usize),
    /// Not enough bytes yet for a full packet.
    Incomplete,
    /// A length field that no packet has.
    Corrupt,
}

impl View for Frame {
    type V = FrameView;

    open spec fn view(&self) -> FrameView {
        match *self {
            Frame::Packet(p, total) => FrameView::Packet {
                packet: optional_packet(p),
                total: total as nat,
            },
            Frame::Incomplete => FrameView::Incomplete,
            Frame::Corrupt => FrameView::Corrupt,
        }
    }
}

/// What the length field of `buf` comes to, when its first `i - 1` bytes add up to `len`
/// and all have the top bit set, and the next byte counts `mult`.
spec fn resumed(buf: Seq<u8>, i: int, len: int, mult: int) -> LengthField {
    match length_field(buf.skip(i), (5 - i) as nat) {
        LengthField::Known { value, size } => LengthField::Known {
            value: (len + mult * value) as nat,
            size: (size + i - 1) as nat,
        },
        other => other,
    }
}

/// Finds the packet at the front of a buffer.
pub fn next_frame(buf: &[u8]) -> (r: Frame)
    ensures
        r@ == frame_of(buf@),
{
    if buf.len() < 2 {
        assert(buf@.len() > 0 ==> buf@.skip(1).len() == 0);
        return Frame::Incomplete;
    }
    let kind: u8 = buf[0] >> 4;
    let flags: u8 = buf[0] & 0x0f;

    let mut mult: usize = 1;
    let mut len: usize = 0;
    let mut i: usize = 1;
    let mut more = true;
    while more
        invariant
            2 <= buf.len(),
            1 <= i <= 5,
            more ==> i <= 4,
            i == 1 ==> more,
            more && i == 1 ==> mult == 1,
            more && i == 2 ==> mult == 128,
            more && i == 3 ==> mult == 128 * 128,
            more && i == 4 ==> mult == 128 * 128 * 128,
            i <= buf.len(),
            more ==> len < mult,
            more ==> length_field(buf@.skip(1), 4) == resumed(buf@, i as int, len as int, mult as int),
            !more ==> len < 128 * 128 * 128 * 128,
            !more ==> length_field(buf@.skip(1), 4) == (LengthField::Known {
                value: len as nat,
                size: (i - 1) as nat,
            }),
        decreases 5 - i,
    {
        if i >= buf.len() {
            assert(buf@.skip(i as int).len() == 0);
            return Frame::Incomplete;
        }
        let b: u8 = buf[i];
        let low: u8 = b & 0x7f;
        assert(low <= 127) by (bit_vector)
            requires
                low == b & 0x7f,
        ;
        assert(buf@.skip(i as int)[0] == b);
        assert(buf@.skip(i as int).skip(1) =~= buf@.skip(i + 1));
        let ghost len0 = len as int;
        let ghost mult0 = mult as int;
        assert(low * mult <= 127 * mult && low * mult == mult * low) by (nonlinear_arith)
            requires
                low <= 127,
        ;
        len = len + low as usize * mult;
        i = i + 1;
        if b & 0x80 == 0 {
            more = false;
        } else {
            if i >= 5 {
                return Frame::Corrupt;
            }
            mult = mult * 128;
            proof {
                if let LengthField::Known { value, size } = length_field(
                    buf@.skip(i as int),
                    (5 - i) as nat,
                ) {
                    assert(mult0 * (low as int + 128 * value) == low * mult0 + (mult0 * 128)
                        * value) by (nonlinear_arith);
                }
            }
        }
    }

    if buf.len() - i < len {
        return Frame::Incomplete;
    }
    let total: usize = i + len;
    let body = slice_subrange(buf, i, total);
    Frame::Packet(decode_body(kind, flags, body), total)
}

/// Streaming framer: bytes in, complete packets out. A partial trailing packet is
/// buffered until the rest of its bytes arrive.
pub struct Decoder {
    buf: Vec<u8>,
}

impl View for Decoder {
    type V = Seq<u8>;

    /// The bytes that wait for the rest of their packet.
    closed spec fn view(&self) -> Seq<u8> {
        self.buf@
    }
}

impl Default for Decoder {
    fn default() -> (r: Self)
        ensures
            r@ == Seq::<u8>::empty(),
    {
        Decoder { buf: Vec::new() }
    }
}

impl Decoder {
    pub fn new() -> (r: Self)
        ensures
            r@ == Seq::<u8>::empty(),
    {
        Decoder { buf: Vec::new() }
    }

    /// Feeds raw bytes and returns every packet that is now complete. What follows the
    /// last of them stays buffered; after a malformed length field nothing does.
    pub fn push(&mut self, chunk: &[u8]) -> (out: Vec<Packet>)
        ensures
            packets(out@) == complete_packets(old(self)@ + chunk@),
            final(self)@ == leftover(old(self)@ + chunk@),
    {
        self.buf.extend_from_slice(chunk);
        assert(self.buf@ =~= old(self).buf@ + chunk@);
        let mut out: Vec<Packet> = Vec::new();
        let ghost all = self.buf@;
        let mut more = true;
        assert(packets(out@) + complete_packets(all) =~= complete_packets(all));
        while more
            invariant
                more ==> complete_packets(all) == packets(out@) + complete_packets(self.buf@),
                more ==> leftover(all) == leftover(self.buf@),
                !more ==> complete_packets(all) == packets(out@),
                !more ==> leftover(all) == self.buf@,
            decreases (if more { 1int } else { 0int }), self.buf.len(),
        {
            match next_frame(self.buf.as_slice()) {
                Frame::Packet(packet, total) => {
                    let ghost before = out@;
                    let ghost found = as_list(optional_packet(packet));
                    if let Some(p) = packet {
                        out.push(p);
                    }
                    let ghost buf0 = self.buf@;
                    self.buf = self.buf.split_off(total);
                    proof {
                        assert(self.buf@ =~= buf0.skip(total as int));
                        assert(packets(out@) =~= packets(before) + found);
                        assert(packets(before) + (found + complete_packets(self.buf@)) =~= packets(
                            out@,
                        ) + complete_packets(self.buf@));
                    }
                },
                Frame::Incomplete => {
                    more = false;
                    assert(packets(out@) + Seq::<PacketView>::empty() =~= packets(out@));
                },
                Frame::Corrupt => {
                    self.buf.clear();
                    more = false;
                    assert(packets(out@) + Seq::<PacketView>::empty() =~= packets(out@));
                },
            }
        }
        out
    }
}

// --- encoders: the replies a stand-in broker owes the device ---

/// A number as a little-endian base-128 length field, each byte but the last with its
/// top bit set.
pub open spec fn encoded_length(n: nat) -> Seq<u8>
    decreases n,
{
    if n < 128 {
        seq![n as u8]
    } else {
        seq![(n % 128 + 128) as u8] + encoded_length(n / 128)
    }
}

/// A packet: the header byte, the length of the body, the body.
pub open spec fn framed(header: u8, body: Seq<u8>) -> Seq<u8> {
    seq![header] + encoded_length(body.len()) + body
}

/// The two bytes of a 16-bit big-endian number; higher digits are cut off.
pub open spec fn be16_bytes(n: int) -> Seq<u8> {
    seq![((n / 256) % 256) as u8, (n % 256) as u8]
}

/// The body of a QoS 0 PUBLISH: the length-prefixed topic, then the payload.
pub open spec fn publish_body(topic: Seq<char>, payload: Seq<u8>) -> Seq<u8> {
    be16_bytes(vstd::utf8::encode_utf8(topic).len() as int) + vstd::utf8::encode_utf8(topic) + payload
}

/// A QoS 0 PUBLISH on the wire.
pub open spec fn publish_packet(topic: Seq<char>, payload: Seq<u8>, retain: bool) -> Seq<u8> {
    framed(
        if retain {
            0x31
        } else {
            0x30
        },
        publish_body(topic, payload),
    )
}

/// A SUBACK on the wire, granting QoS 0 to each of `count` topics.
pub open spec fn suback_packet(packet_id: u16, count: nat) -> Seq<u8> {
    framed(0x90, be16_bytes(packet_id as int) + Seq::new(count, |i: int| 0u8))
}

/// A PUBACK on the wire.
pub open spec fn puback_packet(packet_id: u16) -> Seq<u8> {
    seq![0x40u8, 0x02u8] + be16_bytes(packet_id as int)
}

/// CONNACK with return code 0x00 (connection accepted), no session present.
pub fn connack() -> (r: Vec<u8>)
    ensures
        r@ == seq![0x20u8, 0x02u8, 0x00u8, 0x00u8],
{
    vec![0x20, 0x02, 0x00, 0x00]
}

/// SUBACK granting QoS 0 for each of `count` subscribed topics.
pub fn suback(packet_id: u16, count: usize) -> (r: Vec<u8>)
    ensures
        r@ == suback_packet(packet_id, count as nat),
{
    let mut payload: Vec<u8> = vec![(packet_id / 256) as u8, (packet_id % 256) as u8];
    let mut i: usize = 0;
    assert(payload@ =~= be16_bytes(packet_id as int) + Seq::new(0, |i: int| 0u8));
    while i < count
        invariant
            i <= count,
            payload@ == be16_bytes(packet_id as int) + Seq::new(i as nat, |i: int| 0u8),
        decreases count - i,
    {
        payload.push(0x00);
        i = i + 1;
        assert(payload@ =~= be16_bytes(packet_id as int) + Seq::new(i as nat, |i: int| 0u8));
    }
    frame(0x90, payload.as_slice())
}

/// PUBACK for a QoS 1 PUBLISH.
pub fn puback(packet_id: u16) -> (r: Vec<u8>)
    ensures
        r@ == puback_packet(packet_id),
{
    let r: Vec<u8> = vec![0x40, 0x02, (packet_id / 256) as u8, (packet_id % 256) as u8];
    assert(r@ =~= puback_packet(packet_id));
    r
}

/// PINGRESP.
pub fn pingresp() -> (r: Vec<u8>)
    ensures
        r@ == seq![0xd0u8, 0x00u8],
{
    vec![0xd0, 0x00]
}

/// A QoS 0 PUBLISH (no packet id), optionally with the retain bit set.
pub fn publish(topic: &str, payload: &[u8], retain: bool) -> (r: Vec<u8>)
    ensures
        r@ == publish_packet(topic@, payload@, retain),
{
    let header: u8 = if retain {
        0x31
    } else {
        0x30
    };
    let tb = topic.as_bytes();
    let mut body: Vec<u8> = vec![((tb.len() / 256) % 256) as u8, (tb.len() % 256) as u8];
    body.extend_from_slice(tb);
    assert(body@ =~= be16_bytes(tb@.len() as int) + tb@);
    body.extend_from_slice(payload);
    assert(body@ =~= publish_body(topic@, payload@));
    frame(header, body.as_slice())
}

/// Prepends the fixed header byte and remaining-length field to a packet body.
pub fn frame(header: u8, body: &[u8]) -> (r: Vec<u8>)
    ensures
        r@ == framed(header, body@),
{
    let mut out: Vec<u8> = vec![header];
    let mut len: usize = body.len();
    assert(out@ =~= seq![header]);
    while len >= 128
        invariant
            seq![header] + encoded_length(body@.len()) == out@ + encoded_length(len as nat),
        decreases len,
    {
        let ghost out0 = out@;
        let ghost rest = encoded_length((len / 128) as nat);
        let byte: u8 = (len % 128 + 128) as u8;
        out.push(byte);
        assert(out0 + (seq![byte] + rest) =~= out@ + rest);
        len = len / 128;
    }
    let ghost out0 = out@;
    out.push(len as u8);
    assert(out@ =~= out0 + seq![len as u8]);
    out.extend_from_slice(body);
    assert(out@ =~= framed(header, body@));
    out
}

// --- laws ---

/// A length field that fits in `limit` bytes is read back from the front of any stream.
proof fn length_reads_back(n: nat, rest: Seq<u8>, limit: nat)
    requires
        0 < limit <= 4,
        limit == 1 ==> n < 128,
        limit == 2 ==> n < 128 * 128,
        limit == 3 ==> n < 128 * 128 * 128,
        limit == 4 ==> n < 128 * 128 * 128 * 128,
    ensures
        length_field(encoded_length(n) + rest, limit) == (LengthField::Known {
            value: n,
            size: encoded_length(n).len(),
        }),
        encoded_length(n).len() <= limit,
    decreases n,
{
    let s = encoded_length(n) + rest;
    if n < 128 {
        let b = n as u8;
        assert(s[0] == b);
        assert(b & 0x80 == 0 && b & 0x7f == b) by (bit_vector)
            requires
                b < 128,
        ;
    } else {
        let low = (n % 128) as u8;
        let b = (n % 128 + 128) as u8;
        assert(s[0] == b);
        assert(b & 0x80 != 0 && b & 0x7f == low) by (bit_vector)
            requires
                b == low + 128,
                low < 128,
        ;
        assert(s.skip(1) =~= encoded_length(n / 128) + rest);
        length_reads_back(n / 128, rest, (limit - 1) as nat);
    }
}

/// The largest body that a remaining-length field can announce.
pub const MAX_BODY: usize = 268_435_455;

/// Framing: a packet that was framed is the first packet of any stream that starts with
/// it, and the stream goes on right behind it.
pub proof fn law_framed_packet_is_decoded(header: u8, body: Seq<u8>, rest: Seq<u8>)
    requires
        body.len() <= MAX_BODY,
    ensures
        frame_of(framed(header, body) + rest) == (FrameView::Packet {
            packet: packet_of(header >> 4, header & 0x0f, body),
            total: framed(header, body).len(),
        }),
        complete_packets(framed(header, body) + rest) == as_list(
            packet_of(header >> 4, header & 0x0f, body),
        ) + complete_packets(rest),
        leftover(framed(header, body) + rest) == leftover(rest),
{
    let s = framed(header, body) + rest;
    let size = encoded_length(body.len()).len();
    assert(s.skip(1) =~= encoded_length(body.len()) + (body + rest));
    length_reads_back(body.len(), body + rest, 4);
    assert(s.subrange(1 + size as int, 1 + size as int + body.len() as int) =~= body);
    assert(s[0] == header);
    assert(s.skip(framed(header, body).len() as int) =~= rest);
}

/// A length field that is cut short is still incomplete.
proof fn cut_length_is_incomplete(n: nat, limit: nat, at: int)
    requires
        0 <= at < encoded_length(n).len() <= limit,
    ensures
        length_field(encoded_length(n).take(at), limit) is Incomplete,
    decreases n,
{
    if at > 0 {
        let s = encoded_length(n).take(at);
        let b = (n % 128 + 128) as u8;
        assert(n >= 128);
        assert(s[0] == b);
        assert(b & 0x80 != 0) by (bit_vector)
            requires
                b >= 128,
        ;
        assert(s.skip(1) =~= encoded_length(n / 128).take(at - 1));
        cut_length_is_incomplete(n / 128, (limit - 1) as nat, at - 1);
    }
}

/// Partial packets: a framed packet that is cut short anywhere is incomplete; nothing is
/// decoded from it, and nothing of it is dropped.
pub proof fn law_cut_packet_is_incomplete(header: u8, body: Seq<u8>, n: int)
    requires
        body.len() <= MAX_BODY,
        0 <= n < framed(header, body).len(),
    ensures
        frame_of(framed(header, body).take(n)) is Incomplete,
        complete_packets(framed(header, body).take(n)) == Seq::<PacketView>::empty(),
        leftover(framed(header, body).take(n)) == framed(header, body).take(n),
{
    let s = framed(header, body).take(n);
    let length = encoded_length(body.len());
    length_reads_back(body.len(), Seq::empty(), 4);
    if n == 0 {
    } else if n - 1 < length.len() {
        assert(s.skip(1) =~= length.take(n - 1));
        cut_length_is_incomplete(body.len(), 4, n - 1);
    } else {
        let rest = body.take(n - 1 - length.len());
        assert(s.skip(1) =~= length + rest);
        length_reads_back(body.len(), rest, 4);
    }
}

/// The topic and payload of a PUBLISH body are read back, for a topic whose UTF-8 form
/// has a 16-bit length.
proof fn publish_body_reads_back(topic: Seq<char>, payload: Seq<u8>, flags: u8)
    requires
        vstd::utf8::encode_utf8(topic).len() <= 65535,
        flags == 0 || flags == 1,
    ensures
        publish_of(flags, publish_body(topic, payload)) == Some(
            PublishView { topic, payload, qos: 0, retain: flags == 1, packet_id: None },
        ),
{
    let tb = vstd::utf8::encode_utf8(topic);
    let body = publish_body(topic, payload);
    assert((flags >> 1) & 0x03 == 0 && (flags & 0x01 != 0 <==> flags == 1)) by (bit_vector)
        requires
            flags == 0 || flags == 1,
    ;
    text::lemma_decodes_what_was_encoded(topic);
    assert(body[0] == (tb.len() / 256) as u8 && body[1] == (tb.len() % 256) as u8);
    assert(be16(body, 0) == tb.len());
    assert(field(body, 0) =~= tb);
    assert(body.subrange(2 + tb.len() as int, body.len() as int) =~= payload);
}

/// Publishing: what [`publish`] encodes, [`Decoder::push`] gives back as a QoS 0 PUBLISH
/// with the same topic, payload and retain bit, from the front of any stream. The topic's
/// length must fit the 16 bits it is sent in, and the body the length field.
pub proof fn law_published_message_is_decoded(
    topic: Seq<char>,
    payload: Seq<u8>,
    retain: bool,
    rest: Seq<u8>,
)
    requires
        vstd::utf8::encode_utf8(topic).len() <= 65535,
        publish_body(topic, payload).len() <= MAX_BODY,
    ensures
        complete_packets(publish_packet(topic, payload, retain) + rest) == seq![
            PacketView::Publish(
                PublishView { topic, payload, qos: 0, retain, packet_id: None },
            ),
        ] + complete_packets(rest),
        leftover(publish_packet(topic, payload, retain) + rest) == leftover(rest),
{
    let header: u8 = if retain {
        0x31
    } else {
        0x30
    };
    let flags: u8 = if retain {
        1
    } else {
        0
    };
    assert(0x30u8 >> 4 == 3 && 0x31u8 >> 4 == 3 && 0x30u8 & 0x0f == 0 && 0x31u8 & 0x0f == 1)
        by (bit_vector);
    law_framed_packet_is_decoded(header, publish_body(topic, payload), rest);
    publish_body_reads_back(topic, payload, flags);
}

/// Reading a length field does not depend on what follows once it is complete or corrupt.
proof fn length_field_is_stable(s: Seq<u8>, more: Seq<u8>, limit: nat)
    requires
        !(length_field(s, limit) is Incomplete),
    ensures
        length_field(s + more, limit) == length_field(s, limit),
        length_field(s, limit) matches LengthField::Known { size, .. } ==> size <= s.len(),
    decreases limit,
{
    if limit > 0 {
        assert((s + more)[0] == s[0]);
        if s[0] & 0x80 != 0 {
            assert((s + more).skip(1) =~= s.skip(1) + more);
            length_field_is_stable(s.skip(1), more, (limit - 1) as nat);
        }
    }
}

/// Recognising a frame does not depend on what follows it.
proof fn frame_is_stable(s: Seq<u8>, more: Seq<u8>)
    requires
        !(frame_of(s) is Incomplete),
    ensures
        frame_of(s + more) == frame_of(s),
{
    assert((s + more).skip(1) =~= s.skip(1) + more);
    length_field_is_stable(s.skip(1), more, MAX_LENGTH_BYTES as nat);
    if let LengthField::Known { value, size } = length_field(s.skip(1), MAX_LENGTH_BYTES as nat) {
        let from = 1 + size as int;
        let to = from + value as int;
        assert((s + more).subrange(from, to) =~= s.subrange(from, to));
    }
}

/// Chunking: pushing a stream in two chunks gives the packets, and leaves the bytes, that
/// pushing it at once does, wherever the cut falls. (A malformed length field in the
/// first chunk drops what was buffered, so the cut would show.)
pub proof fn law_chunking_does_not_matter(first: Seq<u8>, second: Seq<u8>)
    requires
        in_sync(first),
    ensures
        complete_packets(first + second) == complete_packets(first) + complete_packets(
            leftover(first) + second,
        ),
        leftover(first + second) == leftover(leftover(first) + second),
    decreases first.len(),
{
    match frame_of(first) {
        FrameView::Packet { packet, total } => {
            frame_is_stable(first, second);
            let rest = first.skip(total as int);
            assert((first + second).skip(total as int) =~= rest + second);
            law_chunking_does_not_matter(rest, second);
            assert(as_list(packet) + (complete_packets(rest) + complete_packets(
                leftover(rest) + second,
            )) =~= (as_list(packet) + complete_packets(rest)) + complete_packets(
                leftover(rest) + second,
            ));
        },
        _ => {
            assert(Seq::<PacketView>::empty() + complete_packets(first + second)
                =~= complete_packets(first + second));
        },
    }
}

/// Resynchronising: once a malformed length field is reached the buffer is dropped, so
/// the decoder reads whatever is pushed next as a new stream.
pub proof fn law_corruption_drops_the_buffer(stream: Seq<u8>)
    requires
        !in_sync(stream),
    ensures
        leftover(stream) == Seq::<u8>::empty(),
    decreases stream.len(),
{
    if let FrameView::Packet { total, .. } = frame_of(stream) {
        law_corruption_drops_the_buffer(stream.skip(total as int));
    }
}

/// Buffering: what stays buffered is never a complete packet, so no packet is held back.
pub proof fn law_nothing_complete_is_held_back(stream: Seq<u8>)
    ensures
        frame_of(leftover(stream)) is Incomplete,
        complete_packets(leftover(stream)) == Seq::<PacketView>::empty(),
    decreases stream.len(),
{
    if let FrameView::Packet { total, .. } = frame_of(stream) {
        law_nothing_complete_is_held_back(stream.skip(total as int));
    }
}

/// A byte string behind its 16-bit length, as a packet body carries it.
pub open spec fn prefixed(data: Seq<u8>) -> Seq<u8> {
    be16_bytes(data.len() as int) + data
}

/// A length-prefixed field that a packet may leave out.
pub open spec fn optional_prefixed(data: Option<Seq<u8>>) -> Seq<u8> {
    match data {
        Some(data) => prefixed(data),
        None => Seq::empty(),
    }
}

/// Whether a byte string, where there is one, has a length that fits in 16 bits.
pub open spec fn sendable(data: Option<Seq<u8>>) -> bool {
    data matches Some(data) ==> data.len() <= 65535
}

/// The UTF-8 form of an optional text.
pub open spec fn optional_utf8(s: Option<Seq<char>>) -> Option<Seq<u8>> {
    match s {
        Some(s) => Some(vstd::utf8::encode_utf8(s)),
        None => None,
    }
}

/// The body of a CONNECT, as a client lays it out.
pub open spec fn connect_body(
    protocol: Seq<u8>,
    level: u8,
    flags: u8,
    keep_alive: u16,
    will_topic: Option<Seq<u8>>,
    will_message: Option<Seq<u8>>,
    c: ConnectView,
) -> Seq<u8> {
    prefixed(protocol) + seq![level, flags] + be16_bytes(keep_alive as int) + prefixed(
        vstd::utf8::encode_utf8(c.client_id),
    ) + optional_prefixed(will_topic) + optional_prefixed(will_message) + optional_prefixed(
        optional_utf8(c.username),
    ) + optional_prefixed(optional_utf8(c.password))
}

/// A field that was written at the end of `pre` is read back there.
proof fn field_reads_back(b: Seq<u8>, pre: Seq<u8>, data: Seq<u8>, post: Seq<u8>)
    requires
        data.len() <= 65535,
        b == pre + prefixed(data) + post,
    ensures
        field_end(b, pre.len() as int) == Some((pre + prefixed(data)).len() as int),
        field(b, pre.len() as int) == data,
{
    let off = pre.len() as int;
    assert(b[off] == (data.len() / 256) as u8 && b[off + 1] == (data.len() % 256) as u8);
    assert(be16(b, off) == data.len());
    assert(field(b, off) =~= data);
}

/// The same for a field that may be left out.
proof fn optional_field_reads_back(
    b: Seq<u8>,
    pre: Seq<u8>,
    data: Option<Seq<u8>>,
    post: Seq<u8>,
)
    requires
        sendable(data),
        b == pre + optional_prefixed(data) + post,
    ensures
        optional_field_end(b, pre.len() as int, data is Some) == Some(
            (pre + optional_prefixed(data)).len() as int,
        ),
        data matches Some(data) ==> field(b, pre.len() as int) == data,
{
    if let Some(data) = data {
        field_reads_back(b, pre, data, post);
    }
}

proof fn starts_with_sum(pre: Seq<u8>, part: Seq<u8>, whole: Seq<u8>)
    requires
        whole == pre + part,
    ensures
        pre.len() <= whole.len(),
        whole == pre + whole.skip(pre.len() as int),
{
    assert(whole =~= pre + whole.skip(pre.len() as int));
}

proof fn starts_with_longer(pre: Seq<u8>, shorter: Seq<u8>, part: Seq<u8>, whole: Seq<u8>)
    requires
        pre.len() <= shorter.len(),
        shorter == pre + shorter.skip(pre.len() as int),
        whole == shorter + part,
    ensures
        pre.len() <= whole.len(),
        whole == pre + whole.skip(pre.len() as int),
{
    assert forall|i: int| 0 <= i < pre.len() implies whole[i] == pre[i] by {
        assert(whole[i] == shorter[i]);
        assert(shorter[i] == (pre + shorter.skip(pre.len() as int))[i]);
    }
    assert(whole =~= pre + whole.skip(pre.len() as int));
}

/// Six parts in a row: what is there up to each of them.
proof fn connect_parts(
    a: Seq<u8>,
    p1: Seq<u8>,
    p2: Seq<u8>,
    p3: Seq<u8>,
    p4: Seq<u8>,
    p5: Seq<u8>,
)
    ensures
        ({
            let s1 = a + p1;
            let s2 = s1 + p2;
            let s3 = s2 + p3;
            let s4 = s3 + p4;
            let b = s4 + p5;
            &&& b == a + b.skip(a.len() as int)
            &&& b == s1 + b.skip(s1.len() as int)
            &&& b == s2 + b.skip(s2.len() as int)
            &&& b == s3 + b.skip(s3.len() as int)
            &&& b == s4 + b.skip(s4.len() as int)
            &&& b == b + b.skip(b.len() as int)
        }),
{
    let s1 = a + p1;
    let s2 = s1 + p2;
    let s3 = s2 + p3;
    let s4 = s3 + p4;
    let b = s4 + p5;
    starts_with_sum(a, p1, s1);
    starts_with_longer(a, s1, p2, s2);
    starts_with_longer(a, s2, p3, s3);
    starts_with_longer(a, s3, p4, s4);
    starts_with_longer(a, s4, p5, b);
    starts_with_sum(s1, p2, s2);
    starts_with_longer(s1, s2, p3, s3);
    starts_with_longer(s1, s3, p4, s4);
    starts_with_longer(s1, s4, p5, b);
    starts_with_sum(s2, p3, s3);
    starts_with_longer(s2, s3, p4, s4);
    starts_with_longer(s2, s4, p5, b);
    starts_with_sum(s3, p4, s4);
    starts_with_longer(s3, s4, p5, b);
    starts_with_sum(s4, p5, b);
    assert(b =~= b + b.skip(b.len() as int));
}

/// The part of a CONNECT before the client id: where it ends, and the flags in it.
proof fn connect_head_reads_back(
    protocol: Seq<u8>,
    level: u8,
    flags: u8,
    keep_alive: u16,
    post: Seq<u8>,
)
    requires
        protocol.len() <= 65535,
    ensures
        ({
            let fixed = prefixed(protocol) + seq![level, flags] + be16_bytes(keep_alive as int);
            let b = fixed + post;
            &&& field_end(b, 0) == Some(fixed.len() - 4)
            &&& b[fixed.len() - 3] == flags
            &&& b.len() >= fixed.len()
        }),
{
    let none = Seq::<u8>::empty();
    let fixed = prefixed(protocol) + seq![level, flags] + be16_bytes(keep_alive as int);
    let b = fixed + post;
    let rest = seq![level, flags] + be16_bytes(keep_alive as int) + post;
    assert(b =~= none + prefixed(protocol) + rest);
    field_reads_back(b, none, protocol, rest);
}

/// Credentials: the client id, username and password that a client puts in a CONNECT are
/// the ones that are recovered, whatever the protocol name and level and whether or not
/// there is a will. The flags must announce what the body holds, and each field's length
/// must fit the 16 bits it is sent in.
#[verifier::rlimit(40)]
pub proof fn law_connect_identity_is_recovered(
    protocol: Seq<u8>,
    level: u8,
    flags: u8,
    keep_alive: u16,
    will_topic: Option<Seq<u8>>,
    will_message: Option<Seq<u8>>,
    c: ConnectView,
)
    requires
        protocol.len() <= 65535,
        vstd::utf8::encode_utf8(c.client_id).len() <= 65535,
        sendable(will_topic),
        sendable(will_message),
        sendable(optional_utf8(c.username)),
        sendable(optional_utf8(c.password)),
        flags & 0x04 != 0 <==> will_topic is Some,
        flags & 0x04 != 0 <==> will_message is Some,
        flags & 0x80 != 0 <==> c.username is Some,
        flags & 0x40 != 0 <==> c.password is Some,
    ensures
        connect_of(
            connect_body(protocol, level, flags, keep_alive, will_topic, will_message, c),
        ) == Some(c),
        connect_end(
            connect_body(protocol, level, flags, keep_alive, will_topic, will_message, c),
        ) == Some(
            connect_body(
                protocol,
                level,
                flags,
                keep_alive,
                will_topic,
                will_message,
                c,
            ).len() as int,
        ),
{
    let b = connect_body(protocol, level, flags, keep_alive, will_topic, will_message, c);
    let id = vstd::utf8::encode_utf8(c.client_id);
    let user = optional_utf8(c.username);
    let pass = optional_utf8(c.password);

    let fixed = prefixed(protocol) + seq![level, flags] + be16_bytes(keep_alive as int);
    let to_id = fixed + prefixed(id);
    let to_topic = to_id + optional_prefixed(will_topic);
    let to_message = to_topic + optional_prefixed(will_message);
    let to_user = to_message + optional_prefixed(user);

    connect_parts(
        fixed,
        prefixed(id),
        optional_prefixed(will_topic),
        optional_prefixed(will_message),
        optional_prefixed(user),
        optional_prefixed(pass),
    );
    connect_head_reads_back(protocol, level, flags, keep_alive, b.skip(fixed.len() as int));
    field_reads_back(b, fixed, id, b.skip(to_id.len() as int));
    optional_field_reads_back(b, to_id, will_topic, b.skip(to_topic.len() as int));
    optional_field_reads_back(b, to_topic, will_message, b.skip(to_message.len() as int));
    optional_field_reads_back(b, to_message, user, b.skip(to_user.len() as int));
    optional_field_reads_back(b, to_user, pass, b.skip(b.len() as int));

    text::lemma_decodes_what_was_encoded(c.client_id);
    if let Some(u) = c.username {
        text::lemma_decodes_what_was_encoded(u);
    }
    if let Some(p) = c.password {
        text::lemma_decodes_what_was_encoded(p);
    }
}

/// The topics of a SUBSCRIBE, as a client lays them out: each behind its length and
/// followed by the QoS it asks for.
pub open spec fn topic_list(topics: Seq<Seq<char>>, qos: Seq<u8>) -> Seq<u8>
    decreases topics.len(),
{
    if topics.len() == 0 {
        Seq::empty()
    } else {
        prefixed(vstd::utf8::encode_utf8(topics[0])) + seq![qos[0]] + topic_list(
            topics.skip(1),
            qos.skip(1),
        )
    }
}

proof fn topics_read_back(b: Seq<u8>, pre: Seq<u8>, topics: Seq<Seq<char>>, qos: Seq<u8>)
    requires
        forall|i: int| 0 <= i < topics.len() ==> vstd::utf8::encode_utf8(#[trigger] topics[i]).len() <= 65535,
        b == pre + topic_list(topics, qos),
    ensures
        topics_from(b, pre.len() as int) == Some(topics),
    decreases topics.len(),
{
    if topics.len() == 0 {
        assert(topics =~= Seq::empty());
    } else {
        let first = vstd::utf8::encode_utf8(topics[0]);
        let rest = topic_list(topics.skip(1), qos.skip(1));
        let next = pre + prefixed(first) + seq![qos[0]];
        assert(b =~= pre + prefixed(first) + (seq![qos[0]] + rest));
        field_reads_back(b, pre, first, seq![qos[0]] + rest);
        assert(b =~= next + rest);
        topics_read_back(b, next, topics.skip(1), qos.skip(1));
        text::lemma_decodes_what_was_encoded(topics[0]);
        assert(seq![topics[0]] + topics.skip(1) =~= topics);
    }
}

/// Subscriptions: the packet id and the topics that a client puts in a SUBSCRIBE are the
/// ones that are recovered, in order, when each topic's length fits in 16 bits.
pub proof fn law_subscribe_topics_are_recovered(
    packet_id: u16,
    topics: Seq<Seq<char>>,
    qos: Seq<u8>,
)
    requires
        forall|i: int| 0 <= i < topics.len() ==> vstd::utf8::encode_utf8(#[trigger] topics[i]).len() <= 65535,
    ensures
        subscribe_of(be16_bytes(packet_id as int) + topic_list(topics, qos)) == Some(
            SubscribeView { packet_id, topics },
        ),
{
    let id = be16_bytes(packet_id as int);
    let b = id + topic_list(topics, qos);
    topics_read_back(b, id, topics, qos);
    assert(b[0] == (packet_id / 256) as u8 && b[1] == (packet_id % 256) as u8);
    assert(be16(b, 0) == packet_id);
}

/// Acknowledged messages: a PUBLISH at a higher quality of service is decoded with the
/// packet id that its acknowledgement has to carry, when the topic's length fits in 16 bits.
pub proof fn law_acknowledged_publish_is_decoded(
    topic: Seq<char>,
    packet_id: u16,
    payload: Seq<u8>,
    qos: u8,
    retain: bool,
)
    requires
        vstd::utf8::encode_utf8(topic).len() <= 65535,
        1 <= qos <= 3,
    ensures
        publish_of(
            (2 * qos + if retain {
                1int
            } else {
                0int
            }) as u8,
            prefixed(vstd::utf8::encode_utf8(topic)) + be16_bytes(packet_id as int) + payload,
        ) == Some(PublishView { topic, payload, qos, retain, packet_id: Some(packet_id) }),
{
    let flags = (2 * qos + if retain {
        1int
    } else {
        0int
    }) as u8;
    let bit: u8 = if retain {
        1
    } else {
        0
    };
    assert((flags >> 1) & 0x03 == qos && (flags & 0x01 != 0 <==> bit == 1)) by (bit_vector)
        requires
            flags == 2 * qos + bit,
            1 <= qos <= 3,
            bit <= 1,
    ;
    let tb = vstd::utf8::encode_utf8(topic);
    let none = Seq::<u8>::empty();
    let id = be16_bytes(packet_id as int);
    let body = prefixed(tb) + id + payload;
    let n = prefixed(tb).len() as int;
    text::lemma_decodes_what_was_encoded(topic);
    assert(body =~= none + prefixed(tb) + (id + payload));
    field_reads_back(body, none, tb, id + payload);
    assert((none + prefixed(tb)).len() == n);
    assert(body[n] == (packet_id / 256) as u8 && body[n + 1] == (packet_id % 256) as u8);
    assert(be16(body, n) == packet_id);
    assert(body.subrange(n + 2, body.len() as int) =~= payload);
}

/// Length fields: a length is sent in groups of seven bits, the lowest first, each byte but the
/// last with its top bit set, and in as few bytes as will do.
pub proof fn law_lengths_are_sent_seven_bits_at_a_time(n: nat)
    ensures
        n < 128 ==> encoded_length(n) == seq![n as u8],
        128 <= n < 16384 ==> encoded_length(n) == seq![(n % 128 + 128) as u8, (n / 128) as u8],
        16384 <= n < 2097152 ==> encoded_length(n) == seq![
            (n % 128 + 128) as u8,
            ((n / 128) % 128 + 128) as u8,
            (n / 16384) as u8,
        ],
        2097152 <= n < 268435456 ==> encoded_length(n) == seq![
            (n % 128 + 128) as u8,
            ((n / 128) % 128 + 128) as u8,
            ((n / 16384) % 128 + 128) as u8,
            (n / 2097152) as u8,
        ],
{
    reveal_with_fuel(encoded_length, 5);
    assert((n / 128) / 128 == n / 16384);
    assert((n / 16384) / 128 == n / 2097152);
    if 128 <= n < 16384 {
        assert(encoded_length(n) =~= seq![(n % 128 + 128) as u8, (n / 128) as u8]);
    }
    if 16384 <= n < 2097152 {
        assert(encoded_length(n) =~= seq![
            (n % 128 + 128) as u8,
            ((n / 128) % 128 + 128) as u8,
            (n / 16384) as u8,
        ]);
    }
    if 2097152 <= n < 268435456 {
        assert(encoded_length(n) =~= seq![
            (n % 128 + 128) as u8,
            ((n / 128) % 128 + 128) as u8,
            ((n / 16384) % 128 + 128) as u8,
            (n / 2097152) as u8,
        ]);
    }
}

/// Frames: a packet is its header byte, the length of its body, and its body.
pub proof fn law_frame_is_header_length_body(header: u8, body: Seq<u8>)
    ensures
        ({
            let s = framed(header, body);
            let n = encoded_length(body.len()).len() as int;
            &&& s.len() == 1 + n + body.len()
            &&& s[0] == header
            &&& s.subrange(1, 1 + n) == encoded_length(body.len())
            &&& s.skip(1 + n) == body
        }),
{
    let s = framed(header, body);
    let n = encoded_length(body.len()).len() as int;
    assert(s.subrange(1, 1 + n) =~= encoded_length(body.len()));
    assert(s.skip(1 + n) =~= body);
}

/// Unfinished and broken streams: no bytes, or a header alone, are not yet a packet, and a length
/// field of which four bytes announce another one is broken.
pub proof fn law_fifth_length_byte_is_corrupt(s: Seq<u8>)
    ensures
        s.len() < 2 ==> frame_of(s) is Incomplete,
        s.len() >= 5 && s[1] >= 128 && s[2] >= 128 && s[3] >= 128 && s[4] >= 128 ==> frame_of(
            s,
        ) is Corrupt,
{
    reveal_with_fuel(length_field, 6);
    if s.len() >= 5 && s[1] >= 128 && s[2] >= 128 && s[3] >= 128 && s[4] >= 128 {
        let t = s.skip(1);
        let (a, b, c, d) = (s[1], s[2], s[3], s[4]);
        assert(a & 0x80 != 0 && b & 0x80 != 0 && c & 0x80 != 0 && d & 0x80 != 0) by (bit_vector)
            requires
                a >= 128,
                b >= 128,
                c >= 128,
                d >= 128,
        ;
        assert(t[0] == a && t.skip(1)[0] == b && t.skip(1).skip(1)[0] == c && t.skip(1).skip(1).skip(
            1,
        )[0] == d);
    }
}

/// Kinds: the upper half of the header byte says what a packet is; kinds that onboarding does not
/// read are kept as they are, so that the stream stays in step.
pub proof fn law_kinds_of_packets(kind: u8, flags: u8, body: Seq<u8>)
    ensures
        packet_of(12, flags, body) == Some(PacketView::PingReq),
        packet_of(14, flags, body) == Some(PacketView::Disconnect),
        packet_of(1, flags, body) matches Some(p) ==> p is Connect,
        packet_of(3, flags, body) matches Some(p) ==> p is Publish,
        packet_of(8, flags, body) matches Some(p) ==> p is Subscribe,
        packet_of(1, flags, body) is None <==> connect_of(body) is None,
        packet_of(3, flags, body) is None <==> publish_of(flags, body) is None,
        packet_of(8, flags, body) is None <==> subscribe_of(body) is None,
        connect_of(body) matches Some(c) ==> packet_of(1, flags, body) == Some(
            PacketView::Connect(c),
        ),
        publish_of(flags, body) matches Some(p) ==> packet_of(3, flags, body) == Some(
            PacketView::Publish(p),
        ),
        subscribe_of(body) matches Some(s) ==> packet_of(8, flags, body) == Some(
            PacketView::Subscribe(s),
        ),
        kind != 1 && kind != 3 && kind != 8 && kind != 12 && kind != 14 ==> packet_of(
            kind,
            flags,
            body,
        ) == Some(PacketView::Other { kind }),
{
}

/// Acknowledgements: a SUBACK carries the packet id, high byte first, and one zero for each
/// topic; a PUBACK carries the packet id and nothing else.
pub proof fn law_acknowledgements_carry_the_packet_id(packet_id: u16, count: nat)
    ensures
        puback_packet(packet_id) == seq![
            0x40u8,
            0x02u8,
            (packet_id / 256) as u8,
            (packet_id % 256) as u8,
        ],
        ({
            let s = suback_packet(packet_id, count);
            let n = encoded_length(count + 2).len() as int;
            &&& s.len() == 3 + n + count
            &&& s[0] == 0x90
            &&& s.subrange(1, 1 + n) == encoded_length(count + 2)
            &&& s[1 + n] == (packet_id / 256) as u8
            &&& s[2 + n] == (packet_id % 256) as u8
            &&& forall|i: int| 3 + n <= i < s.len() ==> #[trigger] s[i] == 0
        }),
{
    let body = be16_bytes(packet_id as int) + Seq::new(count, |i: int| 0u8);
    assert((packet_id as int / 256) % 256 == packet_id as int / 256);
    assert(puback_packet(packet_id) =~= seq![
        0x40u8,
        0x02u8,
        (packet_id / 256) as u8,
        (packet_id % 256) as u8,
    ]);
    assert(body.len() == count + 2);
    law_frame_is_header_length_body(0x90, body);
    let s = suback_packet(packet_id, count);
    let n = encoded_length(count + 2).len() as int;
    assert(s[1 + n] == body[0] && s[2 + n] == body[1]);
}

/// Messages on the wire: a PUBLISH is the header with its retain bit, the length of the topic,
/// high byte first, the topic and the payload.
pub proof fn law_publish_on_the_wire(topic: Seq<char>, payload: Seq<u8>, retain: bool)
    ensures
        ({
            let tb = vstd::utf8::encode_utf8(topic);
            let body = publish_body(topic, payload);
            let s = publish_packet(topic, payload, retain);
            &&& s == framed(
                if retain {
                    0x31u8
                } else {
                    0x30u8
                },
                body,
            )
            &&& body.len() == 2 + tb.len() + payload.len()
            &&& tb.len() <= 65535 ==> body[0] * 256 + body[1] == tb.len()
            &&& body.subrange(2, 2 + tb.len() as int) == tb
            &&& body.skip(2 + tb.len() as int) == payload
        }),
{
    let tb = vstd::utf8::encode_utf8(topic);
    let body = publish_body(topic, payload);
    assert(body.subrange(2, 2 + tb.len() as int) =~= tb);
    assert(body.skip(2 + tb.len() as int) =~= payload);
    assert(body[0] == ((tb.len() as int / 256) % 256) as u8 && body[1] == (tb.len() as int % 256) as u8);
}

/// Fields: a field on the wire is its length in two bytes, high byte first, and then that many
/// bytes; where fewer follow there is no field.
pub proof fn law_fields_are_length_prefixed(pre: Seq<u8>, content: Seq<u8>, post: Seq<u8>)
    requires
        content.len() <= 65535,
    ensures
        ({
            let n = content.len();
            let at = pre.len() as int;
            let b = pre + seq![(n / 256) as u8, (n % 256) as u8] + content + post;
            &&& field_end(b, at) == Some(at + 2 + n)
            &&& field(b, at) == content
            &&& post.len() == 0 && n > 0 ==> field_end(b.drop_last(), at) is None
        }),
{
    let n = content.len();
    let at = pre.len() as int;
    let b = pre + seq![(n / 256) as u8, (n % 256) as u8] + content + post;
    assert(b[at] == (n / 256) as u8 && b[at + 1] == (n % 256) as u8);
    assert(be16(b, at) == n);
    assert(field(b, at) =~= content);
    if post.len() == 0 && n > 0 {
        let c = b.drop_last();
        assert(c[at] == b[at] && c[at + 1] == b[at + 1]);
    }
}

/// Malformed packets: a packet whose body is malformed is passed over, and the stream goes on
/// behind it; a packet that is understood comes first, and the others follow in their order.
pub proof fn law_malformed_packets_are_passed_over(header: u8, body: Seq<u8>, rest: Seq<u8>)
    requires
        body.len() <= 268_435_455,
    ensures
        packet_of(header >> 4, header & 0x0f, body) is None ==> complete_packets(
            framed(header, body) + rest,
        ) == complete_packets(rest),
        packet_of(header >> 4, header & 0x0f, body) matches Some(p) ==> complete_packets(
            framed(header, body) + rest,
        ) == seq![p] + complete_packets(rest),
        leftover(framed(header, body) + rest) == leftover(rest),
        complete_packets(Seq::empty()) == Seq::<PacketView>::empty(),
        leftover(Seq::empty()) == Seq::<u8>::empty(),
{
    law_framed_packet_is_decoded(header, body, rest);
    assert(Seq::<PacketView>::empty() + complete_packets(rest) =~= complete_packets(rest));
}

/// Contents: what a packet is said to hold is what its fields hold.
pub proof fn law_packets_show_their_fields(c: Connect, p: Publish, s: Subscribe, kind: u8)
    ensures
        c@.client_id == c.client_id@,
        c.username matches Some(u) ==> c@.username == Some(u@),
        c.username is None ==> c@.username is None,
        c.password matches Some(w) ==> c@.password == Some(w@),
        c.password is None ==> c@.password is None,
        p@.topic == p.topic@ && p@.payload == p.payload@ && p@.qos == p.qos,
        p@.retain == p.retain && p@.packet_id == p.packet_id,
        s@.packet_id == s.packet_id,
        s@.topics.len() == s.topics@.len(),
        forall|i: int| 0 <= i < s.topics@.len() ==> #[trigger] s@.topics[i] == s.topics@[i]@,
        Packet::Connect(c)@ == PacketView::Connect(c@),
        Packet::Publish(p)@ == PacketView::Publish(p@),
        Packet::Subscribe(s)@ == PacketView::Subscribe(s@),
        Packet::PingReq@ == PacketView::PingReq,
        Packet::Disconnect@ == PacketView::Disconnect,
        (Packet::Other { kind })@ == (PacketView::Other { kind }),
{
}

/// Length fields that are read: each byte adds its lower seven bits, the first ones counting
/// least, and the field ends with the first byte below 128, however it was written.
pub proof fn law_lengths_are_read_seven_bits_at_a_time(a: u8, b: u8, c: u8, d: u8, rest: Seq<u8>)
    ensures
        a < 128 ==> length_field(seq![a] + rest, 4) == (LengthField::Known {
            value: a as nat,
            size: 1,
        }),
        a >= 128 && b < 128 ==> length_field(seq![a, b] + rest, 4) == (LengthField::Known {
            value: (a - 128 + 128 * b) as nat,
            size: 2,
        }),
        a >= 128 && b >= 128 && c < 128 ==> length_field(seq![a, b, c] + rest, 4) == (
        LengthField::Known { value: (a - 128 + 128 * (b - 128) + 16384 * c) as nat, size: 3 }),
        a >= 128 && b >= 128 && c >= 128 && d < 128 ==> length_field(seq![a, b, c, d] + rest, 4) == (
        LengthField::Known {
            value: (a - 128 + 128 * (b - 128) + 16384 * (c - 128) + 2097152 * d) as nat,
            size: 4,
        }),
        length_field(Seq::empty(), 4) is Incomplete,
        a >= 128 ==> length_field(seq![a], 4) is Incomplete,
        a >= 128 && b >= 128 ==> length_field(seq![a, b], 4) is Incomplete,
        a >= 128 && b >= 128 && c >= 128 ==> length_field(seq![a, b, c], 4) is Incomplete,
{
    seven_bits(a);
    seven_bits(b);
    seven_bits(c);
    seven_bits(d);
    reveal_with_fuel(length_field, 6);
    let none = Seq::<u8>::empty();
    assert((seq![a, b] + rest).skip(1) =~= seq![b] + rest);
    assert((seq![a, b, c] + rest).skip(1) =~= seq![b, c] + rest);
    assert((seq![b, c] + rest).skip(1) =~= seq![c] + rest);
    assert((seq![a, b, c, d] + rest).skip(1) =~= seq![b, c, d] + rest);
    assert((seq![b, c, d] + rest).skip(1) =~= seq![c, d] + rest);
    assert((seq![c, d] + rest).skip(1) =~= seq![d] + rest);
    assert(seq![a].skip(1) =~= none);
    assert(seq![a, b].skip(1) =~= seq![b]);
    assert(seq![b].skip(1) =~= none);
    assert(seq![a, b, c].skip(1) =~= seq![b, c]);
    assert(seq![b, c].skip(1) =~= seq![c]);
    assert(seq![c].skip(1) =~= none);
}

proof fn seven_bits(b: u8)
    ensures
        b < 128 ==> b & 0x80 == 0 && b & 0x7f == b,
        b >= 128 ==> b & 0x80 != 0 && b & 0x7f == b - 128,
{
    assert(b < 128 ==> b & 0x80 == 0 && b & 0x7f == b) by (bit_vector);
    assert(b >= 128 ==> b & 0x80 != 0 && b & 0x7f == b - 128) by (bit_vector);
}

/// Frames that are read: where the length field is complete the packet is complete as soon as
/// that many bytes follow it, and it is what header and body hold.
pub proof fn law_frame_is_as_long_as_it_says(s: Seq<u8>, value: nat, size: nat)
    requires
        s.len() > 0,
        length_field(s.skip(1), 4) == (LengthField::Known { value, size }),
    ensures
        s.len() < 1 + size + value ==> frame_of(s) is Incomplete,
        s.len() >= 1 + size + value ==> frame_of(s) == (FrameView::Packet {
            packet: packet_of(
                s[0] >> 4,
                s[0] & 0x0f,
                s.subrange(1 + size as int, 1 + size as int + value as int),
            ),
            total: 1 + size + value,
        }),
{
}

/// Where the last field of a CONNECT ends, if all of them are there.
pub open spec fn connect_end(body: Seq<u8>) -> Option<int> {
    match connect_client_id_at(body) {
        Some(id_at) => {
            let flags = body[id_at - 3];
            match field_end(body, id_at) {
                Some(will_at) => match optional_field_end(body, will_at, flags & 0x04 != 0) {
                    Some(message_at) => match optional_field_end(
                        body,
                        message_at,
                        flags & 0x04 != 0,
                    ) {
                        Some(user_at) => match optional_field_end(
                            body,
                            user_at,
                            flags & 0x80 != 0,
                        ) {
                            Some(pass_at) => optional_field_end(body, pass_at, flags & 0x40 != 0),
                            None => None,
                        },
                        None => None,
                    },
                    None => None,
                },
                None => None,
            }
        },
        None => None,
    }
}

proof fn field_end_in_prefix(b: Seq<u8>, n: int, off: int, present: bool)
    requires
        0 <= n <= b.len(),
        0 <= off <= n,
        optional_field_end(b.take(n), off, present) is Some,
    ensures
        optional_field_end(b, off, present) == optional_field_end(b.take(n), off, present),
        off <= optional_field_end(b.take(n), off, present)->0 <= n,
{
    let c = b.take(n);
    if present {
        assert(c[off] == b[off] && c[off + 1] == b[off + 1]);
    }
}

proof fn connect_end_in_prefix(b: Seq<u8>, n: int)
    requires
        0 <= n <= b.len(),
        connect_end(b.take(n)) is Some,
    ensures
        connect_end(b) == connect_end(b.take(n)),
        connect_end(b)->0 <= n,
{
    let c = b.take(n);
    field_end_in_prefix(b, n, 0, true);
    let id_at = connect_client_id_at(c)->0;
    let flags = c[id_at - 3];
    assert(flags == b[id_at - 3]);
    field_end_in_prefix(b, n, id_at, true);
    let will_at = field_end(c, id_at)->0;
    field_end_in_prefix(b, n, will_at, flags & 0x04 != 0);
    let message_at = optional_field_end(c, will_at, flags & 0x04 != 0)->0;
    field_end_in_prefix(b, n, message_at, flags & 0x04 != 0);
    let user_at = optional_field_end(c, message_at, flags & 0x04 != 0)->0;
    field_end_in_prefix(b, n, user_at, flags & 0x80 != 0);
    let pass_at = optional_field_end(c, user_at, flags & 0x80 != 0)->0;
    field_end_in_prefix(b, n, pass_at, flags & 0x40 != 0);
}

/// Cut CONNECTs: a CONNECT that ends before the last field that its flags announce is malformed.
pub proof fn law_cut_connect_is_malformed(
    protocol: Seq<u8>,
    level: u8,
    flags: u8,
    keep_alive: u16,
    will_topic: Option<Seq<u8>>,
    will_message: Option<Seq<u8>>,
    c: ConnectView,
    n: int,
)
    requires
        protocol.len() <= 65535,
        vstd::utf8::encode_utf8(c.client_id).len() <= 65535,
        sendable(will_topic),
        sendable(will_message),
        sendable(optional_utf8(c.username)),
        sendable(optional_utf8(c.password)),
        flags & 0x04 != 0 <==> will_topic is Some,
        flags & 0x04 != 0 <==> will_message is Some,
        flags & 0x80 != 0 <==> c.username is Some,
        flags & 0x40 != 0 <==> c.password is Some,
        0 <= n < connect_body(
            protocol,
            level,
            flags,
            keep_alive,
            will_topic,
            will_message,
            c,
        ).len(),
    ensures
        connect_of(
            connect_body(protocol, level, flags, keep_alive, will_topic, will_message, c).take(n),
        ) is None,
{
    let b = connect_body(protocol, level, flags, keep_alive, will_topic, will_message, c);
    law_connect_identity_is_recovered(
        protocol,
        level,
        flags,
        keep_alive,
        will_topic,
        will_message,
        c,
    );
    if connect_of(b.take(n)) is Some {
        assert(connect_end(b.take(n)) is Some);
        connect_end_in_prefix(b, n);
    }
}

/// Cut PUBLISHes: a PUBLISH that ends inside its topic, or inside the packet id that its quality
/// of service calls for, is malformed; any other one is understood.
pub proof fn law_cut_publish_is_malformed(flags: u8, body: Seq<u8>)
    ensures
        body.len() < 2 ==> publish_of(flags, body) is None,
        body.len() >= 2 ==> {
            let at = 2 + body[0] as int * 256 + body[1] as int;
            let qos = (flags >> 1) & 0x03;
            &&& publish_of(flags, body) is Some <==> at + (if qos > 0 {
                2int
            } else {
                0int
            }) <= body.len()
        },
{
}

proof fn broken_topics(b: Seq<u8>, pre: Seq<u8>, topics: Seq<Seq<char>>, qos: Seq<u8>, tail: Seq<u8>)
    requires
        forall|i: int| 0 <= i < topics.len() ==> vstd::utf8::encode_utf8(#[trigger] topics[i]).len() <= 65535,
        b == pre + topic_list(topics, qos) + tail,
        tail.len() > 0,
        tail.len() < 2 || tail.len() < 2 + tail[0] as int * 256 + tail[1] as int,
    ensures
        topics_from(b, pre.len() as int) is None,
    decreases topics.len(),
{
    if topics.len() == 0 {
        assert(b =~= pre + tail);
        let at = pre.len() as int;
        assert(b[at] == tail[0]);
        if tail.len() >= 2 {
            assert(b[at + 1] == tail[1]);
        }
    } else {
        let first = vstd::utf8::encode_utf8(topics[0]);
        let rest = topic_list(topics.skip(1), qos.skip(1));
        let next = pre + prefixed(first) + seq![qos[0]];
        assert(b =~= pre + prefixed(first) + (seq![qos[0]] + rest + tail));
        field_reads_back(b, pre, first, seq![qos[0]] + rest + tail);
        assert(b =~= next + rest + tail);
        broken_topics(b, next, topics.skip(1), qos.skip(1), tail);
    }
}

/// Cut SUBSCRIBEs: a SUBSCRIBE that is cut inside its packet id or inside a topic is malformed.
pub proof fn law_cut_subscribe_is_malformed(
    packet_id: u16,
    topics: Seq<Seq<char>>,
    qos: Seq<u8>,
    tail: Seq<u8>,
)
    requires
        forall|i: int| 0 <= i < topics.len() ==> vstd::utf8::encode_utf8(#[trigger] topics[i]).len() <= 65535,
        tail.len() > 0,
        tail.len() < 2 || tail.len() < 2 + tail[0] as int * 256 + tail[1] as int,
    ensures
        subscribe_of(be16_bytes(packet_id as int) + topic_list(topics, qos) + tail) is None,
        subscribe_of(seq![tail[0]]) is None,
        subscribe_of(Seq::empty()) is None,
{
    let id = be16_bytes(packet_id as int);
    broken_topics(id + topic_list(topics, qos) + tail, id, topics, qos, tail);
}

} // verus!
