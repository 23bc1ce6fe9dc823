//! Raw-reading parser: turns a device `/read` payload into a structured [`Reading`].
//!
//! The payload carries the measurement twice: as JSON fields, which are canonical, and
//! packed into an underscore-delimited `raw` string, which fills in what they leave out.

use vstd::prelude::*;

use crate::decimal;
use crate::decimal::Decimal;
use crate::exact;
use crate::number;
use crate::text;
use crate::text::Separator;

verus! {

/// A single measurement from the radio sensor node.
#[derive(Clone, Debug, PartialEq)]
pub struct Reading {
    /// Sensor-node id.
    pub sensor: String,
    /// Firmware or protocol tag that the reading was produced with.
    pub version: Option<String>,
    /// Radar distance to the liquid surface in centimetres.
    pub level_cm: Decimal,
    /// Battery voltage in millivolts.
    pub battery_mv: i64,
    /// Reading counter.
    pub read_no: Option<i64>,
    /// Counter of the previously transmitted reading.
    pub last_sent: Option<i64>,
    /// Radar amplitude of the strongest echo.
    pub amp1: Option<i64>,
    /// Temperature.
    pub temp: Option<i64>,
    /// The decoded `raw` string, when present.
    pub raw: Option<RawFrame>,
}

/// The underscore-delimited `raw` telemetry string, decoded positionally.
#[derive(Clone, Debug, PartialEq)]
pub struct RawFrame {
    /// Protocol tag.
    pub version: String,
    /// Sensor-node id.
    pub sensor: String,
    /// Level in millimetres.
    pub level_mm: i64,
    /// Battery voltage in millivolts.
    pub battery_mv: i64,
    /// Radar amplitude.
    pub amp: i64,
    /// Temperature.
    pub temp: i64,
    /// Reading counter.
    pub read_no: i64,
    /// Counter of the previously transmitted reading.
    pub last_sent: i64,
    /// Trailing fields whose meaning is not known.
    pub rest: Vec<i64>,
}

/// The fields of the JSON envelope that the device publishes on `/read`, as far as they are
/// used.
#[derive(Clone, Debug, PartialEq)]
pub struct ReadPayload {
    pub sensor: Option<String>,
    /// The field `v`.
    pub version: Option<String>,
    pub read1: Option<i64>,
    pub battery: Option<String>,
    /// The field `readNo`.
    pub read_no: Option<i64>,
    /// The field `lastSent`.
    pub last_sent: Option<i64>,
    pub amp1: Option<i64>,
    pub temp: Option<i64>,
    pub raw: Option<String>,
}

/// Why a `raw` string was not understood.
#[derive(Clone, Copy, Debug, PartialEq, Eq, Structural)]
pub enum RawFrameError {
    /// It has fewer than the eight known fields.
    TooFewFields { found: usize },
    /// The field at this position is not an integer.
    NotAnInteger { index: usize },
    /// A field behind the known ones is not an integer.
    TrailingNotAnInteger,
}

/// Why a `/read` payload was not understood.
#[derive(Clone, Copy, Debug, PartialEq, Eq, Structural)]
pub enum ReadError {
    /// Its `raw` string is not a telemetry string.
    Raw(RawFrameError),
    /// It has neither `read1` nor a raw level.
    NoLevel,
    /// Its `battery` is not an integer.
    BatteryNotAnInteger,
    /// It has no battery voltage.
    NoBattery,
    /// It has no sensor id.
    NoSensor,
}

/// What a [`RawFrame`] holds.
pub struct RawFrameView {
    pub version: Seq<char>,
    pub sensor: Seq<char>,
    pub level_mm: i64,
    pub battery_mv: i64,
    pub amp: i64,
    pub temp: i64,
    pub read_no: i64,
    pub last_sent: i64,
    pub rest: Seq<i64>,
}

impl View for RawFrame {
    type V = RawFrameView;

    open spec fn view(&self) -> RawFrameView {
        RawFrameView {
            version: self.version@,
            sensor: self.sensor@,
            level_mm: self.level_mm,
            battery_mv: self.battery_mv,
            amp: self.amp,
            temp: self.temp,
            read_no: self.read_no,
            last_sent: self.last_sent,
            rest: self.rest@,
        }
    }
}

/// What a [`Reading`] holds.
pub struct ReadingView {
    pub sensor: Seq<char>,
    pub version: Option<Seq<char>>,
    pub level_cm: Decimal,
    pub battery_mv: i64,
    pub read_no: Option<i64>,
    pub last_sent: Option<i64>,
    pub amp1: Option<i64>,
    pub temp: Option<i64>,
    pub raw: Option<RawFrameView>,
}

/// What an optional frame holds.
pub open spec fn optional_frame(f: Option<RawFrame>) -> Option<RawFrameView> {
    match f {
        Some(f) => Some(f@),
        None => None,
    }
}

impl View for Reading {
    type V = ReadingView;

    open spec fn view(&self) -> ReadingView {
        ReadingView {
            sensor: self.sensor@,
            version: text::optional_text(self.version),
            level_cm: self.level_cm,
            battery_mv: self.battery_mv,
            read_no: self.read_no,
            last_sent: self.last_sent,
            amp1: self.amp1,
            temp: self.temp,
            raw: optional_frame(self.raw),
        }
    }
}

/// What a [`ReadPayload`] holds.
pub struct PayloadView {
    pub sensor: Option<Seq<char>>,
    pub version: Option<Seq<char>>,
    pub read1: Option<i64>,
    pub battery: Option<Seq<char>>,
    pub read_no: Option<i64>,
    pub last_sent: Option<i64>,
    pub amp1: Option<i64>,
    pub temp: Option<i64>,
    pub raw: Option<Seq<char>>,
}

impl View for ReadPayload {
    type V = PayloadView;

    open spec fn view(&self) -> PayloadView {
        PayloadView {
            sensor: text::optional_text(self.sensor),
            version: text::optional_text(self.version),
            read1: self.read1,
            battery: text::optional_text(self.battery),
            read_no: self.read_no,
            last_sent: self.last_sent,
            amp1: self.amp1,
            temp: self.temp,
            raw: text::optional_text(self.raw),
        }
    }
}

/// The first of the fields `from..to` that is not an integer.
pub open spec fn first_bad(parts: Seq<Seq<char>>, from: int, to: int) -> Option<int>
    decreases to - from,
{
    if from >= to {
        None
    } else if number::i64_of(parts[from]) is None {
        Some(from)
    } else {
        first_bad(parts, from + 1, to)
    }
}

/// The integers that texts spell.
pub open spec fn integers(parts: Seq<Seq<char>>) -> Seq<i64> {
    parts.map_values(|p: Seq<char>| number::i64_of(p)->0)
}

/// What a telemetry string says.
pub open spec fn frame_of(raw: Seq<char>) -> Result<RawFrameView, RawFrameError> {
    let parts = text::pieces(raw, Separator::Underscore);
    if parts.len() < 8 {
        Err(RawFrameError::TooFewFields { found: parts.len() as usize })
    } else if let Some(index) = first_bad(parts, 2, 8) {
        Err(RawFrameError::NotAnInteger { index: index as usize })
    } else if first_bad(parts, 8, parts.len() as int) is Some {
        Err(RawFrameError::TrailingNotAnInteger)
    } else {
        let n = integers(parts);
        Ok(
            RawFrameView {
                version: parts[0],
                sensor: parts[1],
                level_mm: n[2],
                battery_mv: n[3],
                amp: n[4],
                temp: n[5],
                read_no: n[6],
                last_sent: n[7],
                rest: n.skip(8),
            },
        )
    }
}

/// A value, or where there is none the one to fall back on.
pub open spec fn or_else<T>(first: Option<T>, second: Option<T>) -> Option<T> {
    match first {
        Some(v) => Some(v),
        None => second,
    }
}

/// What the `raw` string of a payload says, where it has one.
pub open spec fn payload_frame(p: PayloadView) -> Result<Option<RawFrameView>, RawFrameError> {
    match p.raw {
        Some(raw) => match frame_of(raw) {
            Ok(frame) => Ok(Some(frame)),
            Err(e) => Err(e),
        },
        None => Ok(None),
    }
}

/// The level of a reading: `read1` in hundredths of a centimetre, else the raw level in
/// millimetres.
pub open spec fn level_of(p: PayloadView, frame: Option<RawFrameView>) -> Option<Decimal> {
    match (p.read1, frame) {
        (Some(read1), _) => Some(decimal::fraction(read1 as int, 2)),
        (None, Some(f)) => Some(decimal::fraction(f.level_mm as int, 1)),
        (None, None) => None,
    }
}

/// The battery voltage of a reading: `battery` as an integer, else the raw one.
pub open spec fn voltage_of(p: PayloadView, frame: Option<RawFrameView>) -> Result<i64, ReadError> {
    match (p.battery, frame) {
        (Some(b), _) => match number::i64_of(b) {
            Some(mv) => Ok(mv),
            None => Err(ReadError::BatteryNotAnInteger),
        },
        (None, Some(f)) => Ok(f.battery_mv),
        (None, None) => Err(ReadError::NoBattery),
    }
}

/// The reading in a payload whose `raw` string says `frame`.
pub open spec fn reading_with(p: PayloadView, frame: Option<RawFrameView>) -> Result<
    ReadingView,
    ReadError,
> {
    let sensor = or_else(
        p.sensor,
        match frame {
            Some(f) => Some(f.sensor),
            None => None,
        },
    );
    if let Some(level_cm) = level_of(p, frame) {
        match voltage_of(p, frame) {
            Ok(battery_mv) => match sensor {
                Some(sensor) => Ok(
                    ReadingView {
                        sensor,
                        version: or_else(
                            p.version,
                            match frame {
                                Some(f) => Some(f.version),
                                None => None,
                            },
                        ),
                        level_cm,
                        battery_mv,
                        read_no: or_else(
                            p.read_no,
                            match frame {
                                Some(f) => Some(f.read_no),
                                None => None,
                            },
                        ),
                        last_sent: or_else(
                            p.last_sent,
                            match frame {
                                Some(f) => Some(f.last_sent),
                                None => None,
                            },
                        ),
                        amp1: or_else(
                            p.amp1,
                            match frame {
                                Some(f) => Some(f.amp),
                                None => None,
                            },
                        ),
                        temp: or_else(
                            p.temp,
                            match frame {
                                Some(f) => Some(f.temp),
                                None => None,
                            },
                        ),
                        raw: frame,
                    },
                ),
                None => Err(ReadError::NoSensor),
            },
            Err(e) => Err(e),
        }
    } else {
        Err(ReadError::NoLevel)
    }
}

/// The reading in a payload.
pub open spec fn reading_of(p: PayloadView) -> Result<ReadingView, ReadError> {
    match payload_frame(p) {
        Ok(frame) => reading_with(p, frame),
        Err(e) => Err(ReadError::Raw(e)),
    }
}

fn parse_fields(parts: &Vec<String>, from: usize, to: usize) -> (r: Result<Vec<i64>, usize>)
    requires
        from <= to <= parts@.len(),
    ensures
        match r {
            Ok(out) => {
                &&& first_bad(text::texts(parts@), from as int, to as int) is None
                &&& out@ == integers(text::texts(parts@)).subrange(from as int, to as int)
            },
            Err(i) => first_bad(text::texts(parts@), from as int, to as int) == Some(i as int),
        },
{
    let ghost all = text::texts(parts@);
    let mut out: Vec<i64> = Vec::new();
    let mut i: usize = from;
    while i < to
        invariant
            from <= i <= to <= parts@.len(),
            all == text::texts(parts@),
            first_bad(all, from as int, to as int) == first_bad(all, i as int, to as int),
            out@ == integers(all).subrange(from as int, i as int),
        decreases to - i,
    {
        assert(all[i as int] == parts@[i as int]@);
        match number::parse_i64(parts[i].as_str()) {
            Some(n) => {
                out.push(n);
            },
            None => {
                return Err(i);
            },
        }
        i = i + 1;
        assert(out@ =~= integers(all).subrange(from as int, i as int));
    }
    Ok(out)
}

impl RawFrame {
    /// Parses the underscore-delimited telemetry string. Empty segments are dropped, so an
    /// underscore at either end does not shift the field positions.
    pub fn parse(raw: &str) -> (r: Result<RawFrame, RawFrameError>)
        ensures
            match r {
                Ok(f) => frame_of(raw@) == Ok::<RawFrameView, RawFrameError>(f@),
                Err(e) => frame_of(raw@) == Err::<RawFrameView, RawFrameError>(e),
            },
    {
        let parts: Vec<String> = text::split(raw, Separator::Underscore);
        let n: usize = parts.len();
        let ghost all = text::texts(parts@);
        if n < 8 {
            return Err(RawFrameError::TooFewFields { found: n });
        }
        let known: Vec<i64> = match parse_fields(&parts, 2, 8) {
            Ok(known) => known,
            Err(index) => {
                return Err(RawFrameError::NotAnInteger { index });
            },
        };
        let rest: Vec<i64> = match parse_fields(&parts, 8, n) {
            Ok(rest) => rest,
            Err(_) => {
                return Err(RawFrameError::TrailingNotAnInteger);
            },
        };
        assert(rest@ =~= integers(all).skip(8));
        assert(all[0] == parts@[0]@ && all[1] == parts@[1]@);
        Ok(
            RawFrame {
                version: parts[0].clone(),
                sensor: parts[1].clone(),
                level_mm: known[0],
                battery_mv: known[1],
                amp: known[2],
                temp: known[3],
                read_no: known[4],
                last_sent: known[5],
                rest,
            },
        )
    }
}

fn number_or(first: Option<i64>, second: Option<i64>) -> (r: Option<i64>)
    ensures
        r == or_else(first, second),
{
    match first {
        Some(v) => Some(v),
        None => second,
    }
}

fn text_or(first: &Option<String>, second: Option<&String>) -> (r: Option<String>)
    ensures
        text::optional_text(r) == or_else(
            text::optional_text(*first),
            match second {
                Some(s) => Some(s@),
                None => None,
            },
        ),
{
    match first {
        Some(v) => Some(v.clone()),
        None => match second {
            Some(v) => Some(v.clone()),
            None => None,
        },
    }
}

impl Reading {
    /// Turns a `/read` payload into a reading.
    pub fn parse(payload: &ReadPayload) -> (r: Result<Reading, ReadError>)
        ensures
            match r {
                Ok(reading) => reading_of(payload@) == Ok::<ReadingView, ReadError>(reading@),
                Err(e) => reading_of(payload@) == Err::<ReadingView, ReadError>(e),
            },
            r matches Ok(reading) ==> {
                &&& payload.sensor matches Some(s) ==> reading.sensor@ == s@
                &&& payload.read1 matches Some(n) ==> reading.level_cm == decimal::fraction(
                    n as int,
                    2,
                )
                &&& payload.battery matches Some(b) ==> number::i64_of(b@) == Some(
                    reading.battery_mv,
                )
            },
    {
        let raw: Option<RawFrame> = match &payload.raw {
            Some(raw) => match RawFrame::parse(raw.as_str()) {
                Ok(frame) => Some(frame),
                Err(e) => {
                    return Err(ReadError::Raw(e));
                },
            },
            None => None,
        };
        let level_cm: Decimal = match (payload.read1, &raw) {
            (Some(read1), _) => Decimal::new(read1, 2),
            (None, Some(frame)) => Decimal::new(frame.level_mm, 1),
            (None, None) => {
                return Err(ReadError::NoLevel);
            },
        };
        let battery_mv: i64 = match (&payload.battery, &raw) {
            (Some(b), _) => match number::parse_i64(b.as_str()) {
                Some(mv) => mv,
                None => {
                    return Err(ReadError::BatteryNotAnInteger);
                },
            },
            (None, Some(frame)) => frame.battery_mv,
            (None, None) => {
                return Err(ReadError::NoBattery);
            },
        };
        let (sensor, version) = match &raw {
            Some(f) => (
                text_or(&payload.sensor, Some(&f.sensor)),
                text_or(&payload.version, Some(&f.version)),
            ),
            None => (text_or(&payload.sensor, None), text_or(&payload.version, None)),
        };
        let (read_no, last_sent, amp1, temp) = match &raw {
            Some(f) => (
                number_or(payload.read_no, Some(f.read_no)),
                number_or(payload.last_sent, Some(f.last_sent)),
                number_or(payload.amp1, Some(f.amp)),
                number_or(payload.temp, Some(f.temp)),
            ),
            None => (payload.read_no, payload.last_sent, payload.amp1, payload.temp),
        };
        match sensor {
            Some(sensor) => Ok(
                Reading {
                    sensor,
                    version,
                    level_cm,
                    battery_mv,
                    read_no,
                    last_sent,
                    amp1,
                    temp,
                    raw,
                },
            ),
            None => Err(ReadError::NoSensor),
        }
    }
}

/// The least that can be read from a `/read` payload: enough to pull the level out of it.
#[derive(Clone, Debug, PartialEq)]
pub struct RawRead {
    /// Radar distance in hundredths of a centimetre.
    pub read1: Option<i64>,
    pub sensor: Option<String>,
    pub battery: Option<String>,
    pub raw: Option<String>,
}

impl RawRead {
    /// The level in centimetres, straight from `read1`.
    pub fn level(&self) -> (r: Option<Decimal>)
        ensures
            r == (match self.read1 {
                Some(read1) => Some(decimal::fraction(read1 as int, 2)),
                None => None,
            }),
            r matches Some(level) ==> level@ * 100 == self.read1->0 * decimal::one(),
    {
        proof {
            if let Some(read1) = self.read1 {
                law_least_reading_has_its_level(read1);
            }
        }
        match self.read1 {
            Some(read1) => Some(Decimal::new(read1, 2)),
            None => None,
        }
    }
}

/// Agreement: a reading whose `read1`, in hundredths of a centimetre, is ten times its raw
/// level, in millimetres, has the same level whichever of the two it is taken from.
pub proof fn law_raw_level_and_read1_agree(
    with_read1: PayloadView,
    without: PayloadView,
    frame: RawFrameView,
)
    requires
        with_read1.read1 == Some((frame.level_mm * 10) as i64),
        i64::MIN <= frame.level_mm * 10 <= i64::MAX,
        without.read1 is None,
    ensures
        level_of(with_read1, Some(frame)) == level_of(without, Some(frame)),
{
    let mm = frame.level_mm as int;
    let digits = if mm < 0 {
        -mm
    } else {
        mm
    };
    if digits > 0 {
        assert((digits as nat * 10) as nat / 10 == digits as nat);
    }
    assert(decimal::normalised(mm < 0, (digits * 10) as nat, -2) == decimal::normalised(
        mm < 0,
        digits as nat,
        -1,
    ));
}

/// Telemetry strings: an underscore at either end changes nothing of what is decoded.
pub proof fn law_outer_underscores_do_not_matter(raw: Seq<char>)
    ensures
        frame_of(seq!['_'] + raw) == frame_of(raw),
        frame_of(raw.push('_')) == frame_of(raw),
{
    text::law_outer_separators_do_not_matter(raw, '_', Separator::Underscore);
}

/// Fallback: a payload that has a `raw` string which says `frame` is understood, whatever
/// else it leaves out; the raw string supplies what is missing.
pub proof fn law_raw_string_supplies_what_is_missing(raw: Seq<char>, frame: RawFrameView)
    requires
        frame_of(raw) == Ok::<RawFrameView, RawFrameError>(frame),
    ensures
        reading_of(
            PayloadView {
                sensor: None,
                version: None,
                read1: None,
                battery: None,
                read_no: None,
                last_sent: None,
                amp1: None,
                temp: None,
                raw: Some(raw),
            },
        ) == Ok::<ReadingView, ReadError>(
            ReadingView {
                sensor: frame.sensor,
                version: Some(frame.version),
                level_cm: decimal::fraction(frame.level_mm as int, 1),
                battery_mv: frame.battery_mv,
                read_no: Some(frame.read_no),
                last_sent: Some(frame.last_sent),
                amp1: Some(frame.amp),
                temp: Some(frame.temp),
                raw: Some(frame),
            },
        ),
{
}

/// Texts with an underscore between each two.
pub open spec fn underscored(fields: Seq<Seq<char>>) -> Seq<char>
    decreases fields.len(),
{
    if fields.len() == 0 {
        Seq::empty()
    } else if fields.len() == 1 {
        fields[0]
    } else {
        underscored(fields.drop_last()) + seq!['_'] + fields.last()
    }
}

proof fn underscored_fields_are_pieces(fields: Seq<Seq<char>>)
    requires
        forall|i: int|
            0 <= i < fields.len() ==> (#[trigger] fields[i]).len() > 0 && !fields[i].contains('_'),
    ensures
        text::pieces(underscored(fields), Separator::Underscore) == fields,
    decreases fields.len(),
{
    let sep = Separator::Underscore;
    if fields.len() == 0 {
        assert(fields =~= Seq::empty());
    } else {
        let last = fields[fields.len() - 1];
        let before = fields.drop_last();
        assert(last.len() > 0);
        assert forall|i: int| 0 <= i < last.len() implies !sep.splits(#[trigger] last[i]) by {
            assert(last.contains(last[i]));
        }
        text::law_word_is_its_piece(last, sep);
        if fields.len() == 1 {
            assert(fields =~= seq![last]);
        } else {
            assert forall|i: int| 0 <= i < before.len() implies (#[trigger] before[i]).len() > 0
                && !before[i].contains('_') by {
                assert(fields[i].len() > 0);
            }
            underscored_fields_are_pieces(before);
            text::law_pieces_of_both_sides(underscored(before), '_', last, sep);
            assert(before + seq![last] =~= fields);
        }
    }
}

proof fn integer_is_a_field(n: i64)
    ensures
        number::integer_text(n as int).len() > 0,
        !number::integer_text(n as int).contains('_'),
        number::i64_of(number::integer_text(n as int)) == Some(n),
{
    let m = if n < 0 {
        -(n as int)
    } else {
        n as int
    };
    number::law_integer_text_reads_back(n);
    number::natural_text_reads_back(m as nat);
    let digits = number::natural_text(m as nat);
    let s = number::integer_text(n as int);
    if s.contains('_') {
        let i = choose|i: int| 0 <= i < s.len() && s[i] == '_';
        if n < 0 {
            assert(i > 0 && number::is_digit(digits[i - 1]));
        } else {
            assert(number::is_digit(digits[i]));
        }
    }
}

/// The fields of a telemetry string, in their order.
pub open spec fn telemetry_fields(f: RawFrameView) -> Seq<Seq<char>> {
    seq![
        f.version,
        f.sensor,
        number::integer_text(f.level_mm as int),
        number::integer_text(f.battery_mv as int),
        number::integer_text(f.amp as int),
        number::integer_text(f.temp as int),
        number::integer_text(f.read_no as int),
        number::integer_text(f.last_sent as int),
    ] + f.rest.map_values(|n: i64| number::integer_text(n as int))
}

proof fn no_bad_field(parts: Seq<Seq<char>>, from: int, to: int)
    requires
        0 <= from,
        forall|i: int| from <= i < to ==> number::i64_of(#[trigger] parts[i]) is Some,
    ensures
        first_bad(parts, from, to) is None,
    decreases to - from,
{
    if from < to {
        assert(number::i64_of(parts[from]) is Some);
        no_bad_field(parts, from + 1, to);
    }
}

proof fn first_bad_field(parts: Seq<Seq<char>>, from: int, at: int, to: int)
    requires
        0 <= from <= at < to,
        forall|i: int| from <= i < at ==> number::i64_of(#[trigger] parts[i]) is Some,
        number::i64_of(parts[at]) is None,
    ensures
        first_bad(parts, from, to) == Some(at),
    decreases to - from,
{
    if from < at {
        assert(number::i64_of(parts[from]) is Some);
        first_bad_field(parts, from + 1, at, to);
    }
}

/// Telemetry: a string with the version, the sensor, the level, the battery voltage, the
/// amplitude, the temperature and the two counters in this order, and any further numbers, each
/// behind an underscore, says just that.
pub proof fn law_telemetry_is_decoded(f: RawFrameView)
    requires
        f.version.len() > 0 && !f.version.contains('_'),
        f.sensor.len() > 0 && !f.sensor.contains('_'),
    ensures
        frame_of(underscored(telemetry_fields(f))) == Ok::<RawFrameView, RawFrameError>(f),
{
    let fields = telemetry_fields(f);
    integer_is_a_field(f.level_mm);
    integer_is_a_field(f.battery_mv);
    integer_is_a_field(f.amp);
    integer_is_a_field(f.temp);
    integer_is_a_field(f.read_no);
    integer_is_a_field(f.last_sent);
    let n = fields.len() as int;
    assert forall|i: int| 0 <= i < n implies (#[trigger] fields[i]).len() > 0
        && !fields[i].contains('_') by {
        if i >= 8 {
            integer_is_a_field(f.rest[i - 8]);
        }
    }
    assert forall|i: int| 8 <= i < n implies number::i64_of(#[trigger] fields[i]) == Some(
        f.rest[i - 8],
    ) by {
        integer_is_a_field(f.rest[i - 8]);
    }
    underscored_fields_are_pieces(fields);
    assert forall|i: int| 2 <= i < 8 implies number::i64_of(#[trigger] fields[i]) is Some by {
        assert(i == 2 || i == 3 || i == 4 || i == 5 || i == 6 || i == 7);
    }
    no_bad_field(fields, 2, 8);
    no_bad_field(fields, 8, n);
    let numbers = integers(fields);
    assert(numbers[2] == f.level_mm && numbers[3] == f.battery_mv && numbers[4] == f.amp);
    assert(numbers[5] == f.temp && numbers[6] == f.read_no && numbers[7] == f.last_sent);
    assert(numbers.skip(8) =~= f.rest) by {
        assert forall|i: int| 0 <= i < f.rest.len() implies numbers.skip(8)[i] == f.rest[i] by {
            assert(number::i64_of(fields[i + 8]) == Some(f.rest[i]));
        }
    }
}

/// Broken telemetry: fewer than eight fields are too few, and are counted; otherwise the first
/// of the six numbers that is none is named, and then any later one is reported.
pub proof fn law_broken_telemetry_is_refused(fields: Seq<Seq<char>>, at: int)
    requires
        forall|i: int|
            0 <= i < fields.len() ==> (#[trigger] fields[i]).len() > 0 && !fields[i].contains('_'),
        fields.len() <= usize::MAX,
    ensures
        ({
            let said = frame_of(underscored(fields));
            &&& fields.len() < 8 ==> said == Err::<RawFrameView, RawFrameError>(
                RawFrameError::TooFewFields { found: fields.len() as usize },
            )
            &&& fields.len() >= 8 && 2 <= at < 8 && number::i64_of(fields[at]) is None && (forall|
                i: int,
            |
                2 <= i < at ==> number::i64_of(#[trigger] fields[i]) is Some) ==> said == Err::<
                RawFrameView,
                RawFrameError,
            >(RawFrameError::NotAnInteger { index: at as usize })
            &&& 8 <= at < fields.len() && number::i64_of(fields[at]) is None && (forall|i: int|
                2 <= i < at ==> number::i64_of(#[trigger] fields[i]) is Some) ==> said == Err::<
                RawFrameView,
                RawFrameError,
            >(RawFrameError::TrailingNotAnInteger)
        }),
{
    underscored_fields_are_pieces(fields);
    let n = fields.len() as int;
    if 2 <= at < n && n >= 8 && number::i64_of(fields[at]) is None && (forall|i: int|
        2 <= i < at ==> number::i64_of(#[trigger] fields[i]) is Some) {
        if at < 8 {
            first_bad_field(fields, 2, at, 8);
        } else {
            no_bad_field(fields, 2, 8);
            first_bad_field(fields, 8, at, n);
        }
    }
}

/// Fields first: what a payload says in its own fields is what the reading says, the level
/// counted in hundredths of a centimetre and the battery in millivolts; what the fields leave
/// out is what the telemetry string says, with its level in millimetres.
pub proof fn law_fields_come_before_telemetry(p: PayloadView, r: ReadingView)
    requires
        reading_of(p) == Ok::<ReadingView, ReadError>(r),
    ensures
        p.raw is None ==> r.raw is None,
        p.raw matches Some(raw) ==> r.raw is Some && frame_of(raw) == Ok::<
            RawFrameView,
            RawFrameError,
        >(r.raw->0),
        p.sensor matches Some(s) ==> r.sensor == s,
        p.sensor is None ==> r.raw is Some && r.sensor == r.raw->0.sensor,
        p.version is Some ==> r.version == p.version,
        p.version is None && r.raw is Some ==> r.version == Some(r.raw->0.version),
        p.version is None && r.raw is None ==> r.version is None,
        p.read1 matches Some(n) ==> r.level_cm@ * 100 == n * decimal::one(),
        p.read1 is None ==> r.raw is Some && r.level_cm@ * 10 == r.raw->0.level_mm
            * decimal::one(),
        p.battery matches Some(b) ==> number::i64_of(b) == Some(r.battery_mv),
        p.battery is None ==> r.raw is Some && r.battery_mv == r.raw->0.battery_mv,
        p.read_no is Some ==> r.read_no == p.read_no,
        p.read_no is None && r.raw is Some ==> r.read_no == Some(r.raw->0.read_no),
        p.read_no is None && r.raw is None ==> r.read_no is None,
        p.last_sent is Some ==> r.last_sent == p.last_sent,
        p.last_sent is None && r.raw is Some ==> r.last_sent == Some(r.raw->0.last_sent),
        p.last_sent is None && r.raw is None ==> r.last_sent is None,
        p.amp1 is Some ==> r.amp1 == p.amp1,
        p.amp1 is None && r.raw is Some ==> r.amp1 == Some(r.raw->0.amp),
        p.amp1 is None && r.raw is None ==> r.amp1 is None,
        p.temp is Some ==> r.temp == p.temp,
        p.temp is None && r.raw is Some ==> r.temp == Some(r.raw->0.temp),
        p.temp is None && r.raw is None ==> r.temp is None,
        r.level_cm.canonical(),
{
    if let Some(n) = p.read1 {
        decimal::law_fraction_value(n as int, 2);
        reveal_with_fuel(exact::ten_pow, 3);
    } else if let Some(f) = r.raw {
        decimal::law_fraction_value(f.level_mm as int, 1);
        reveal_with_fuel(exact::ten_pow, 3);
    }
}

/// Understood or not: a payload is a reading where its telemetry string, if it has one, is
/// understood, and where it or that string has a level, a voltage that is a number, and a
/// sensor. Of several things that are wrong the first of these is reported.
pub proof fn law_what_is_a_reading(p: PayloadView)
    ensures
        ({
            let said = reading_of(p);
            let bad_raw = p.raw matches Some(raw) && frame_of(raw) is Err;
            let no_level = p.read1 is None && p.raw is None;
            let bad_voltage = p.battery matches Some(b) && number::i64_of(b) is None;
            let no_voltage = p.battery is None && p.raw is None;
            let no_sensor = p.sensor is None && p.raw is None;
            &&& said is Ok <==> !bad_raw && !no_level && !bad_voltage && !no_voltage && !no_sensor
            &&& bad_raw ==> said == Err::<ReadingView, ReadError>(
                ReadError::Raw(frame_of(p.raw->0)->Err_0),
            )
            &&& !bad_raw && no_level ==> said == Err::<ReadingView, ReadError>(ReadError::NoLevel)
            &&& !bad_raw && !no_level && bad_voltage ==> said == Err::<ReadingView, ReadError>(
                ReadError::BatteryNotAnInteger,
            )
            &&& !bad_raw && !no_level && no_voltage ==> said == Err::<ReadingView, ReadError>(
                ReadError::NoBattery,
            )
            &&& !bad_raw && !no_level && !bad_voltage && !no_voltage && no_sensor ==> said == Err::<
                ReadingView,
                ReadError,
            >(ReadError::NoSensor)
        }),
{
}

/// The least reading: its level is the count of hundredths of a centimetre in `read1`.
pub proof fn law_least_reading_has_its_level(read1: i64)
    ensures
        decimal::fraction(read1 as int, 2)@ * 100 == read1 * decimal::one(),
{
    decimal::law_fraction_value(read1 as int, 2);
    reveal_with_fuel(exact::ten_pow, 3);
}

/// Contents: what a reading, a telemetry string and a payload are said to hold is what their
/// fields hold.
pub proof fn law_readings_show_their_fields(r: Reading, f: RawFrame, p: ReadPayload)
    ensures
        r@.sensor == r.sensor@ && r@.level_cm == r.level_cm && r@.battery_mv == r.battery_mv,
        r@.version == text::optional_text(r.version),
        r@.read_no == r.read_no && r@.last_sent == r.last_sent,
        r@.amp1 == r.amp1 && r@.temp == r.temp,
        r.raw matches Some(raw) ==> r@.raw == Some(raw@),
        r.raw is None ==> r@.raw is None,
        f@.version == f.version@ && f@.sensor == f.sensor@ && f@.level_mm == f.level_mm,
        f@.battery_mv == f.battery_mv && f@.amp == f.amp && f@.temp == f.temp,
        f@.read_no == f.read_no && f@.last_sent == f.last_sent && f@.rest == f.rest@,
        p@.sensor == text::optional_text(p.sensor) && p@.version == text::optional_text(p.version),
        p@.battery == text::optional_text(p.battery) && p@.raw == text::optional_text(p.raw),
        p@.read1 == p.read1 && p@.read_no == p.read_no && p@.last_sent == p.last_sent,
        p@.amp1 == p.amp1 && p@.temp == p.temp,
{
}

} // verus!
