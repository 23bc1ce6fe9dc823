//! The vendor `/state` payload, and how it is derived from a reading.

use serde_json::Value;
use vstd::prelude::*;

use crate::battery;
use crate::battery::BatteryCurve;
use crate::calibration;
use crate::calibration::Calibration;
use crate::config::Config;
use crate::decimal;
use crate::decimal::Decimal;
use crate::json;
use crate::json::Json;
use crate::reading::Reading;

verus! {

/// Fields that do not derive from a single reading: identity and what history says.
#[derive(Clone, Debug)]
pub struct StaticFields {
    pub sensor_id: String,
    pub name: String,
    /// Last pump-out timestamp (RFC 3339).
    pub lst_empty: String,
    pub days_left: i64,
    /// The receiving node that the vendor stamps.
    pub from: String,
}

/// The sensor state, field by field what the vendor `/state` JSON carries.
#[derive(Clone, Debug, PartialEq)]
pub struct SensorState {
    pub id: String,
    pub name: String,
    pub lvl: Decimal,
    pub pct: i64,
    pub bat: i64,
    pub lst_read: String,
    pub lst_empty: String,
    pub days_left: i64,
    pub lvl_to_full: i64,
    pub from: String,
}

/// What a [`SensorState`] holds.
pub struct StateView {
    pub id: Seq<char>,
    pub name: Seq<char>,
    pub lvl: Decimal,
    pub pct: i64,
    pub bat: i64,
    pub lst_read: Seq<char>,
    pub lst_empty: Seq<char>,
    pub days_left: i64,
    pub lvl_to_full: i64,
    pub from: Seq<char>,
}

impl View for SensorState {
    type V = StateView;

    open spec fn view(&self) -> StateView {
        StateView {
            id: self.id@,
            name: self.name@,
            lvl: self.lvl,
            pct: self.pct,
            bat: self.bat,
            lst_read: self.lst_read@,
            lst_empty: self.lst_empty@,
            days_left: self.days_left,
            lvl_to_full: self.lvl_to_full,
            from: self.from@,
        }
    }
}

/// What [`StaticFields`] hold.
pub struct StaticsView {
    pub sensor_id: Seq<char>,
    pub name: Seq<char>,
    pub lst_empty: Seq<char>,
    pub days_left: i64,
    pub from: Seq<char>,
}

impl View for StaticFields {
    type V = StaticsView;

    open spec fn view(&self) -> StaticsView {
        StaticsView {
            sensor_id: self.sensor_id@,
            name: self.name@,
            lst_empty: self.lst_empty@,
            days_left: self.days_left,
            from: self.from@,
        }
    }
}

/// The state that a level and a battery voltage give, under a calibration and a battery
/// curve.
pub open spec fn computed(
    level: Decimal,
    battery_mv: int,
    cal: Calibration,
    curve: Seq<(i64, i64)>,
    statics: StaticsView,
    lst_read: Seq<char>,
) -> StateView {
    StateView {
        id: statics.sensor_id,
        name: statics.name,
        lvl: level,
        pct: calibration::fill_percent(cal.full_dist@, cal.empty_dist@, level@) as i64,
        bat: battery::percent_at(curve, battery_mv) as i64,
        lst_read,
        lst_empty: statics.lst_empty,
        days_left: statics.days_left,
        lvl_to_full: calibration::distance_to_full(cal.full_dist@, level@) as i64,
        from: statics.from,
    }
}

/// The state that a configuration seeds.
pub open spec fn seeded(cfg: Config, lst_read: Seq<char>) -> StateView {
    StateView {
        id: cfg.sensor_id@,
        name: cfg.sensor_name@,
        lvl: cfg.state.lvl,
        pct: cfg.state.pct,
        bat: cfg.state.bat,
        lst_read,
        lst_empty: cfg.state.lst_empty@,
        days_left: cfg.state.days_left,
        lvl_to_full: cfg.state.lvl_to_full,
        from: cfg.state.from@,
    }
}

/// The JSON number for a level: a short level is written as it is, any other is what a JSON
/// reader makes of it as text, and null where that is no number to it.
pub open spec fn level_json(lvl: Decimal) -> Json {
    if lvl.short() {
        Json::Float(decimal::decimal_text(lvl))
    } else {
        match json::json_document(vstd::utf8::encode_utf8(decimal::decimal_text(lvl))) {
            Some(v) => if v.number_text() is Some {
                v
            } else {
                Json::Null
            },
            None => Json::Null,
        }
    }
}

/// The members of the one sensor in `/state`.
pub open spec fn sensor_fields(s: StateView) -> Map<Seq<char>, Json> {
    Map::empty().insert("id"@, Json::Text(s.id)).insert("lvl"@, level_json(s.lvl)).insert(
        "pct"@,
        Json::Integer(s.pct as int),
    ).insert("bat"@, Json::Integer(s.bat as int)).insert("lstRead"@, Json::Text(s.lst_read)).insert(
        "lstEmpty"@,
        Json::Text(s.lst_empty),
    ).insert("daysLeft"@, Json::Integer(s.days_left as int)).insert(
        "name"@,
        Json::Text(s.name),
    ).insert("lvlToFull"@, Json::Integer(s.lvl_to_full as int))
}

/// The vendor `/state` document: a list of the one sensor, and the node it comes from.
pub open spec fn state_json(s: StateView) -> Json {
    Json::Object(
        Map::empty().insert("sensors"@, Json::Array(seq![Json::Object(sensor_fields(s))])).insert(
            "from"@,
            Json::Text(s.from),
        ),
    )
}

fn level_value(lvl: Decimal) -> (v: Value)
    ensures
        json::json_tree(v) == level_json(lvl),
{
    let written: String = lvl.text();
    proof {
        if lvl.short() {
            decimal::law_decimal_text_reads_back(lvl);
            vstd::utf8::encode_utf8_decode_utf8(decimal::decimal_text(lvl));
        }
    }
    match json::parse(written.as_str().as_bytes()) {
        Some(v) => if json::number_text(&v).is_some() {
            v
        } else {
            json::null_value()
        },
        None => json::null_value(),
    }
}

impl SensorState {
    /// Computes the state from a reading. `lst_read` is the time at which it was received.
    pub fn compute(
        reading: &Reading,
        calibration: &Calibration,
        battery: &BatteryCurve,
        statics: &StaticFields,
        lst_read: String,
    ) -> (s: SensorState)
        requires
            battery@.len() > 0,
        ensures
            s@ == computed(
                reading.level_cm,
                reading.battery_mv as int,
                *calibration,
                battery@,
                statics@,
                lst_read@,
            ),
            s.pct == calibration::fill_percent(
                calibration.full_dist@,
                calibration.empty_dist@,
                reading.level_cm@,
            ),
            s.bat == battery::percent_at(battery@, reading.battery_mv as int),
            s.lvl_to_full == calibration::distance_to_full(
                calibration.full_dist@,
                reading.level_cm@,
            ),
            s.id@ == statics.sensor_id@,
            s.name@ == statics.name@,
            s.lvl == reading.level_cm,
            s.lst_read@ == lst_read@,
            s.lst_empty@ == statics.lst_empty@,
            s.days_left == statics.days_left,
            s.from@ == statics.from@,
    {
        let lvl: Decimal = reading.level_cm;
        SensorState {
            id: statics.sensor_id.clone(),
            name: statics.name.clone(),
            lvl,
            pct: calibration.pct(lvl),
            bat: battery.percent(reading.battery_mv),
            lst_read,
            lst_empty: statics.lst_empty.clone(),
            days_left: statics.days_left,
            lvl_to_full: calibration.lvl_to_full(lvl),
            from: statics.from.clone(),
        }
    }

    /// The state to serve before the first live reading, taken from the configured seed.
    pub fn seed(cfg: &Config, lst_read: String) -> (s: SensorState)
        ensures
            s@ == seeded(*cfg, lst_read@),
            s.id@ == cfg.sensor_id@,
            s.name@ == cfg.sensor_name@,
            s.lvl == cfg.state.lvl,
            s.pct == cfg.state.pct,
            s.bat == cfg.state.bat,
            s.lst_read@ == lst_read@,
            s.lst_empty@ == cfg.state.lst_empty@,
            s.days_left == cfg.state.days_left,
            s.lvl_to_full == cfg.state.lvl_to_full,
            s.from@ == cfg.state.from@,
    {
        let s = &cfg.state;
        SensorState {
            id: cfg.sensor_id.clone(),
            name: cfg.sensor_name.clone(),
            lvl: s.lvl,
            pct: s.pct,
            bat: s.bat,
            lst_read,
            lst_empty: s.lst_empty.clone(),
            days_left: s.days_left,
            lvl_to_full: s.lvl_to_full,
            from: s.from.clone(),
        }
    }

    /// A copy of the state.
    pub fn copied(&self) -> (s: SensorState)
        ensures
            s@ == self@,
            s.id@ == self.id@ && s.name@ == self.name@ && s.from@ == self.from@,
            s.lvl == self.lvl && s.pct == self.pct && s.bat == self.bat,
            s.lst_read@ == self.lst_read@ && s.lst_empty@ == self.lst_empty@,
            s.days_left == self.days_left && s.lvl_to_full == self.lvl_to_full,
    {
        SensorState {
            id: self.id.clone(),
            name: self.name.clone(),
            lvl: self.lvl,
            pct: self.pct,
            bat: self.bat,
            lst_read: self.lst_read.clone(),
            lst_empty: self.lst_empty.clone(),
            days_left: self.days_left,
            lvl_to_full: self.lvl_to_full,
            from: self.from.clone(),
        }
    }

    /// The vendor `/state` JSON.
    pub fn to_json(&self) -> (v: Value)
        ensures
            json::json_tree(v) == state_json(self@),
            json::json_tree(v).member_text("from"@) == Some(self.from@),
            ({
                let sensor = json::json_tree(v).member("sensors"@)->0.element(0)->0;
                &&& sensor.member_text("id"@) == Some(self.id@)
                &&& sensor.member_text("name"@) == Some(self.name@)
                &&& sensor.member("lvl"@) == Some(level_json(self.lvl))
                &&& sensor.member_integer("pct"@) == Some(self.pct)
                &&& sensor.member_integer("bat"@) == Some(self.bat)
                &&& sensor.member_text("lstRead"@) == Some(self.lst_read@)
                &&& sensor.member_text("lstEmpty"@) == Some(self.lst_empty@)
                &&& sensor.member_integer("daysLeft"@) == Some(self.days_left)
                &&& sensor.member_integer("lvlToFull"@) == Some(self.lvl_to_full)
            }),
    {
        let mut sensor: Value = json::object_value();
        json::set_member(&mut sensor, "id", json::text_value(self.id.as_str()));
        json::set_member(&mut sensor, "lvl", level_value(self.lvl));
        json::set_member(&mut sensor, "pct", json::integer_value(self.pct));
        json::set_member(&mut sensor, "bat", json::integer_value(self.bat));
        json::set_member(&mut sensor, "lstRead", json::text_value(self.lst_read.as_str()));
        json::set_member(&mut sensor, "lstEmpty", json::text_value(self.lst_empty.as_str()));
        json::set_member(&mut sensor, "daysLeft", json::integer_value(self.days_left));
        json::set_member(&mut sensor, "name", json::text_value(self.name.as_str()));
        json::set_member(&mut sensor, "lvlToFull", json::integer_value(self.lvl_to_full));
        assert(json::json_tree(sensor) == Json::Object(sensor_fields(self@)));
        let mut sensors: Vec<Value> = Vec::new();
        let ghost tree = json::json_tree(sensor);
        sensors.push(sensor);
        assert(json::json_trees(sensors@) =~= seq![tree]);
        let mut state: Value = json::object_value();
        json::set_member(&mut state, "sensors", json::array_value(sensors));
        json::set_member(&mut state, "from", json::text_value(self.from.as_str()));
        proof {
            law_state_is_readable(self@);
        }
        state
    }
}

/// Whether a key of an object can be read back by every JSON reader.
spec fn plain_key(k: Seq<char>) -> bool {
    k.len() > 0 && k[0] != '$'
}

/// The keys of `/state` are different from each other and plain.
proof fn state_keys()
    ensures
        seq![
            "id"@,
            "lvl"@,
            "pct"@,
            "bat"@,
            "lstRead"@,
            "lstEmpty"@,
            "daysLeft"@,
            "name"@,
            "lvlToFull"@,
        ].no_duplicates(),
        plain_key("id"@) && plain_key("lvl"@) && plain_key("pct"@) && plain_key("bat"@),
        plain_key("lstRead"@) && plain_key("lstEmpty"@) && plain_key("daysLeft"@),
        plain_key("name"@) && plain_key("lvlToFull"@),
        "sensors"@ != "from"@ && plain_key("sensors"@) && plain_key("from"@),
{
    reveal_strlit("id");
    reveal_strlit("lvl");
    reveal_strlit("pct");
    reveal_strlit("bat");
    reveal_strlit("lstRead");
    reveal_strlit("lstEmpty");
    reveal_strlit("daysLeft");
    reveal_strlit("name");
    reveal_strlit("lvlToFull");
    reveal_strlit("sensors");
    reveal_strlit("from");
    assert("id"@.len() == 2 && "lvl"@.len() == 3 && "pct"@.len() == 3 && "bat"@.len() == 3);
    assert("lstRead"@.len() == 7 && "lstEmpty"@.len() == 8 && "daysLeft"@.len() == 8);
    assert("name"@.len() == 4 && "lvlToFull"@.len() == 9);
    assert("sensors"@.len() == 7 && "from"@.len() == 4);
    assert("lvl"@[0] == 'l' && "pct"@[0] == 'p' && "bat"@[0] == 'b');
    assert("lstEmpty"@[0] == 'l' && "daysLeft"@[0] == 'd');
}

/// The members of the one sensor are what the state holds.
proof fn sensor_members(s: StateView)
    ensures
        Json::Object(sensor_fields(s)).plain(98),
        ({
            let sensor = Json::Object(sensor_fields(s));
            &&& sensor.member("lvl"@) == Some(level_json(s.lvl))
            &&& sensor.member_text("id"@) == Some(s.id)
            &&& sensor.member_text("name"@) == Some(s.name)
            &&& sensor.member_text("lstRead"@) == Some(s.lst_read)
            &&& sensor.member_text("lstEmpty"@) == Some(s.lst_empty)
            &&& sensor.member_integer("pct"@) == Some(s.pct)
            &&& sensor.member_integer("bat"@) == Some(s.bat)
            &&& sensor.member_integer("daysLeft"@) == Some(s.days_left)
            &&& sensor.member_integer("lvlToFull"@) == Some(s.lvl_to_full)
        }),
{
    state_keys();
    let keys = seq![
        "id"@,
        "lvl"@,
        "pct"@,
        "bat"@,
        "lstRead"@,
        "lstEmpty"@,
        "daysLeft"@,
        "name"@,
        "lvlToFull"@,
    ];
    assert forall|i: int, j: int| 0 <= i < j < 9 implies #[trigger] keys[i] != #[trigger] keys[j] by {}
    assert(keys[0] == "id"@ && keys[1] == "lvl"@ && keys[2] == "pct"@);
    assert(keys[3] == "bat"@ && keys[4] == "lstRead"@ && keys[5] == "lstEmpty"@);
    assert(keys[6] == "daysLeft"@ && keys[7] == "name"@ && keys[8] == "lvlToFull"@);
    let fields = sensor_fields(s);
    assert(level_json(s.lvl).plain(97));
    assert forall|k: Seq<char>| #[trigger] fields.contains_key(k) implies fields[k].plain(97) && !(
    k.len() > 0 && k[0] == '$') by {
        assert(k == "id"@ || k == "lvl"@ || k == "pct"@ || k == "bat"@ || k == "lstRead"@ || k
            == "lstEmpty"@ || k == "daysLeft"@ || k == "name"@ || k == "lvlToFull"@);
    }
}

/// Readable state: a reader of the `/state` document gets it back whole, with every field of
/// the state in its place and no other.
pub proof fn law_state_is_readable(s: StateView)
    ensures
        state_json(s).plain(100),
        state_json(s).member_text("from"@) == Some(s.from),
        state_json(s).member("sensors"@) == Some(Json::Array(seq![Json::Object(sensor_fields(s))])),
        forall|key: Seq<char>|
            (#[trigger] state_json(s).member(key)) is Some <==> key == "sensors"@ || key == "from"@,
        forall|key: Seq<char>|
            (#[trigger] Json::Object(sensor_fields(s)).member(key)) is Some <==> key == "id"@ || key
                == "lvl"@ || key == "pct"@ || key == "bat"@ || key == "lstRead"@ || key
                == "lstEmpty"@ || key == "daysLeft"@ || key == "name"@ || key == "lvlToFull"@,
        ({
            let sensor = Json::Object(sensor_fields(s));
            &&& sensor.member("lvl"@) == Some(level_json(s.lvl))
            &&& sensor.member_text("id"@) == Some(s.id)
            &&& sensor.member_text("name"@) == Some(s.name)
            &&& sensor.member_text("lstRead"@) == Some(s.lst_read)
            &&& sensor.member_text("lstEmpty"@) == Some(s.lst_empty)
            &&& sensor.member_integer("pct"@) == Some(s.pct)
            &&& sensor.member_integer("bat"@) == Some(s.bat)
            &&& sensor.member_integer("daysLeft"@) == Some(s.days_left)
            &&& sensor.member_integer("lvlToFull"@) == Some(s.lvl_to_full)
        }),
{
    state_keys();
    sensor_members(s);
    let fields = state_json(s)->Object_0;
    let sensor = Json::Object(sensor_fields(s));
    let sensors = Json::Array(seq![sensor]);
    assert(sensors.plain(99)) by {
        assert(seq![sensor][0].plain(98));
    }
    assert(Json::Text(s.from).plain(99));
    assert forall|k: Seq<char>| #[trigger] fields.contains_key(k) implies fields[k].plain(99) && !(
    k.len() > 0 && k[0] == '$') by {
        assert(k == "sensors"@ || k == "from"@);
    }
}

/// Levels: a level of at most fifteen digits, counted in units down to a ten-thousandth of a
/// centimetre as the device counts them, is published as that very number, and a reader of
/// the number gets the level back.
pub proof fn law_level_goes_out_as_it_is(value: int, places: int)
    requires
        -1_000_000_000_000_000 < value < 1_000_000_000_000_000,
        0 <= places <= 4,
    ensures
        ({
            let lvl = decimal::fraction(value, places);
            &&& level_json(lvl).number_text() == Some(decimal::decimal_text(lvl))
            &&& decimal::decimal_of(decimal::decimal_text(lvl)) == Some(lvl)
        }),
{
    decimal::law_counts_are_short(value, places);
    decimal::law_decimal_text_reads_back(decimal::fraction(value, places));
}

/// Derived values: whatever the reading, fullness is between 0 and 100 percent.
pub proof fn law_fullness_is_a_percentage(
    level: Decimal,
    battery_mv: int,
    cal: Calibration,
    curve: Seq<(i64, i64)>,
    statics: StaticsView,
    lst_read: Seq<char>,
)
    ensures
        0 <= computed(level, battery_mv, cal, curve, statics, lst_read).pct <= 100,
{
}

/// Derived values: a computed state shows the level and the time of its reading, the identity
/// that it was given, and the percentages and the distance that the calibration and the battery
/// curve give for the reading.
pub proof fn law_computed_state_shows_its_reading(
    level: Decimal,
    battery_mv: int,
    cal: Calibration,
    curve: Seq<(i64, i64)>,
    statics: StaticsView,
    lst_read: Seq<char>,
)
    requires
        curve.len() > 0,
        battery::ascending(curve),
    ensures
        ({
            let s = computed(level, battery_mv, cal, curve, statics, lst_read);
            &&& s.id == statics.sensor_id
            &&& s.name == statics.name
            &&& s.from == statics.from
            &&& s.lst_empty == statics.lst_empty
            &&& s.days_left == statics.days_left
            &&& s.lvl == level
            &&& s.lst_read == lst_read
            &&& s.pct == calibration::fill_percent(cal.full_dist@, cal.empty_dist@, level@)
            &&& s.lvl_to_full == calibration::distance_to_full(cal.full_dist@, level@)
            &&& s.bat == battery::percent_at(curve, battery_mv)
        }),
{
    battery::law_percent_is_between_breakpoints(curve, battery_mv);
}

/// Fill level: in a tank that is full at the smaller distance, a state between the two distances
/// shows the percentage nearest to how much of the way from empty to full the level has come.
pub proof fn law_computed_fullness_is_the_nearest_share(
    level: Decimal,
    battery_mv: int,
    cal: Calibration,
    curve: Seq<(i64, i64)>,
    statics: StaticsView,
    lst_read: Seq<char>,
)
    requires
        cal.full_dist@ <= level@ <= cal.empty_dist@,
        cal.full_dist@ < cal.empty_dist@,
    ensures
        ({
            let s = computed(level, battery_mv, cal, curve, statics, lst_read);
            let span = cal.empty_dist@ - cal.full_dist@;
            -span <= 2 * (100 * (cal.empty_dist@ - level@) - s.pct * span) < span
        }),
{
    calibration::law_percent_is_the_nearest_share(cal.full_dist@, cal.empty_dist@, level@);
}

/// First start: the state before the first reading shows the configured identity and seed.
pub proof fn law_seeded_state_shows_the_configuration(cfg: Config, lst_read: Seq<char>)
    ensures
        ({
            let s = seeded(cfg, lst_read);
            &&& s.id == cfg.sensor_id@
            &&& s.name == cfg.sensor_name@
            &&& s.lvl == cfg.state.lvl
            &&& s.pct == cfg.state.pct
            &&& s.bat == cfg.state.bat
            &&& s.lst_read == lst_read
            &&& s.lst_empty == cfg.state.lst_empty@
            &&& s.days_left == cfg.state.days_left
            &&& s.lvl_to_full == cfg.state.lvl_to_full
            &&& s.from == cfg.state.from@
        }),
{
}

/// Contents: what a state and the fixed fields are said to hold is what their fields hold.
pub proof fn law_states_show_their_fields(s: SensorState, f: StaticFields)
    ensures
        s@.id == s.id@ && s@.name == s.name@ && s@.from == s.from@,
        s@.lvl == s.lvl && s@.pct == s.pct && s@.bat == s.bat,
        s@.lst_read == s.lst_read@ && s@.lst_empty == s.lst_empty@,
        s@.days_left == s.days_left && s@.lvl_to_full == s.lvl_to_full,
        f@.sensor_id == f.sensor_id@ && f@.name == f.name@ && f@.from == f.from@,
        f@.lst_empty == f.lst_empty@ && f@.days_left == f.days_left,
{
}

/// Long levels: a level that is not short is published as the number that a JSON reader makes of
/// its text, and as null where that is no number.
pub proof fn law_long_levels_are_what_a_reader_makes_of_them(lvl: Decimal, v: Json)
    requires
        !lvl.short(),
    ensures
        ({
            let read = json::json_document(vstd::utf8::encode_utf8(decimal::decimal_text(lvl)));
            &&& read == Some(v) && (v is Integer || v is Float) ==> level_json(lvl) == v
            &&& read == Some(v) && !(v is Integer || v is Float) ==> level_json(lvl) is Null
            &&& read is None ==> level_json(lvl) is Null
        }),
{
}

} // verus!
