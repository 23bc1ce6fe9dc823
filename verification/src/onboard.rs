//! Onboarding: recover a device's identity from what it and the cloud send, and write the
//! `serve` configuration and the initial state from it.
//!
//! `learn` proxies the device to the real cloud and listens to both; `observe` stands in for
//! the cloud and listens to the device alone. Both collect [`Facts`], and what is written
//! depends on the facts alone.

use serde_json::Value;
use vstd::prelude::*;
use vstd::string::StringExecFns;

use crate::battery;
use crate::battery::BatteryCurve;
use crate::calibration;
use crate::calibration::Calibration;
use crate::config_file;
use crate::decimal;
use crate::decimal::Decimal;
use crate::defaults;
use crate::exact;
use crate::firmware;
use crate::json;
use crate::json::Json;
use crate::mqtt_wire;
use crate::mqtt_wire::{Connect, ConnectView, Packet, PacketView};
use crate::number;
use crate::reading;
use crate::reading::{PayloadView, ReadPayload, Reading, ReadingView};
use crate::server;
use crate::state;
use crate::state::{SensorState, StateView};
use crate::store::{PersistedState, PersistedView};
use crate::text;
use crate::topics;
use crate::topics::Topics;

verus! {

/// The prefix that the firmware puts before the receiver id to form its client id.
pub const CLIENT_ID_PREFIX: &'static str = "CieczSensor";

/// The vendor's MQTT broker, by address so that a DNS rewrite does not lead back here.
pub const DEFAULT_UPSTREAM_HOST: &'static str = "57.128.198.238";

/// Where the output goes and how the capture socket is bound.
#[derive(Clone, Debug)]
pub struct OnboardOptions {
    pub bind_addr: String,
    pub listen_port: u16,
    /// Path of the configuration that is written.
    pub out_config: String,
    /// Directory of the initial state that is written.
    pub data_dir: String,
}

/// How `learn` reaches the cloud.
#[derive(Clone, Debug)]
pub struct LearnOptions {
    pub onboard: OnboardOptions,
    pub upstream_host: String,
    pub upstream_port: u16,
}

/// The `/state` values recovered for the initial retained message.
#[derive(Clone, Debug)]
pub struct Seed {
    pub lvl: Decimal,
    pub pct: i64,
    pub bat: i64,
    pub days_left: i64,
    pub lvl_to_full: i64,
    /// Last pump-out (RFC 3339).
    pub lst_empty: String,
    pub from: String,
}

/// Device identity, assembled from what the device and the cloud reveal.
#[derive(Clone, Debug)]
pub struct Facts {
    pub receiver_id: Option<String>,
    pub client_id: Option<String>,
    pub mqtt_user: Option<String>,
    pub mqtt_pass: Option<String>,
    pub firmware: Option<String>,
    pub sensor_id: Option<String>,
    pub sensor_name: Option<String>,
    pub radar_skip: Option<i64>,
    pub radar_repeat: Option<i64>,
    pub seed: Option<Seed>,
    /// Whether the firmware is the device's own announcement, which nothing replaces.
    pub firmware_announced: bool,
    /// Whether the sensor id, its name and the seed are those of the cloud's `/state`, which
    /// is the best source of each.
    pub id_from_cloud: bool,
    pub name_from_cloud: bool,
    pub seed_from_cloud: bool,
}

/// What a [`Seed`] holds.
pub struct SeedView {
    pub lvl: Decimal,
    pub pct: i64,
    pub bat: i64,
    pub days_left: i64,
    pub lvl_to_full: i64,
    pub lst_empty: Seq<char>,
    pub from: Seq<char>,
}

impl View for Seed {
    type V = SeedView;

    open spec fn view(&self) -> SeedView {
        SeedView {
            lvl: self.lvl,
            pct: self.pct,
            bat: self.bat,
            days_left: self.days_left,
            lvl_to_full: self.lvl_to_full,
            lst_empty: self.lst_empty@,
            from: self.from@,
        }
    }
}

/// What [`Facts`] hold.
pub struct FactsView {
    pub receiver_id: Option<Seq<char>>,
    pub client_id: Option<Seq<char>>,
    pub mqtt_user: Option<Seq<char>>,
    pub mqtt_pass: Option<Seq<char>>,
    pub firmware: Option<Seq<char>>,
    pub sensor_id: Option<Seq<char>>,
    pub sensor_name: Option<Seq<char>>,
    pub radar_skip: Option<i64>,
    pub radar_repeat: Option<i64>,
    pub seed: Option<SeedView>,
    pub firmware_announced: bool,
    pub id_from_cloud: bool,
    pub name_from_cloud: bool,
    pub seed_from_cloud: bool,
}

/// What an optional seed holds.
pub open spec fn optional_seed(s: Option<Seed>) -> Option<SeedView> {
    match s {
        Some(s) => Some(s@),
        None => None,
    }
}

impl View for Facts {
    type V = FactsView;

    open spec fn view(&self) -> FactsView {
        FactsView {
            receiver_id: text::optional_text(self.receiver_id),
            client_id: text::optional_text(self.client_id),
            mqtt_user: text::optional_text(self.mqtt_user),
            mqtt_pass: text::optional_text(self.mqtt_pass),
            firmware: text::optional_text(self.firmware),
            sensor_id: text::optional_text(self.sensor_id),
            sensor_name: text::optional_text(self.sensor_name),
            radar_skip: self.radar_skip,
            radar_repeat: self.radar_repeat,
            seed: optional_seed(self.seed),
            firmware_announced: self.firmware_announced,
            id_from_cloud: self.id_from_cloud,
            name_from_cloud: self.name_from_cloud,
            seed_from_cloud: self.seed_from_cloud,
        }
    }
}

/// Nothing known.
pub open spec fn no_facts() -> FactsView {
    FactsView {
        receiver_id: None,
        client_id: None,
        mqtt_user: None,
        mqtt_pass: None,
        firmware: None,
        sensor_id: None,
        sensor_name: None,
        radar_skip: None,
        radar_repeat: None,
        seed: None,
        firmware_announced: false,
        id_from_cloud: false,
        name_from_cloud: false,
        seed_from_cloud: false,
    }
}

impl Default for Facts {
    fn default() -> (f: Facts)
        ensures
            f@ == no_facts(),
    {
        Facts {
            receiver_id: None,
            client_id: None,
            mqtt_user: None,
            mqtt_pass: None,
            firmware: None,
            sensor_id: None,
            sensor_name: None,
            radar_skip: None,
            radar_repeat: None,
            seed: None,
            firmware_announced: false,
            id_from_cloud: false,
            name_from_cloud: false,
            seed_from_cloud: false,
        }
    }
}

/// A fact after its best source was heard: what that source said first, and while it has said
/// nothing, what is known from elsewhere.
pub open spec fn best<T>(settled: bool, known: Option<T>, new: Option<T>) -> Option<T> {
    if settled {
        known
    } else {
        reading::or_else(new, known)
    }
}

/// The receiver id in a client id.
pub open spec fn receiver_in(client_id: Seq<char>) -> Seq<char> {
    if CLIENT_ID_PREFIX@.is_prefix_of(client_id) {
        client_id.skip(CLIENT_ID_PREFIX@.len() as int)
    } else {
        client_id
    }
}

/// The facts after the device's CONNECT: its credentials and client id, and the receiver id,
/// which is the user name and otherwise stands in the client id.
pub open spec fn after_connect(f: FactsView, c: ConnectView) -> FactsView {
    FactsView {
        client_id: reading::or_else(f.client_id, Some(c.client_id)),
        mqtt_user: reading::or_else(f.mqtt_user, c.username),
        mqtt_pass: reading::or_else(f.mqtt_pass, c.password),
        receiver_id: reading::or_else(
            f.receiver_id,
            reading::or_else(c.username, Some(receiver_in(c.client_id))),
        ),
        ..f
    }
}

/// The seed that a reading gives under the default calibration: no history yet, so no days
/// left, and the pump-out is anchored at the time of the reading.
pub open spec fn seed_of_reading(r: ReadingView, now: Seq<char>) -> SeedView {
    let cal = calibration::default_calibration();
    SeedView {
        lvl: r.level_cm,
        pct: calibration::fill_percent(cal.full_dist@, cal.empty_dist@, r.level_cm@) as i64,
        bat: battery::percent_at(battery::default_points(), r.battery_mv as int) as i64,
        days_left: 0,
        lvl_to_full: calibration::distance_to_full(cal.full_dist@, r.level_cm@) as i64,
        lst_empty: now,
        from: "node-4"@,
    }
}

/// The facts after a reading of the device: the sensor id and a seed.
pub open spec fn after_reading(f: FactsView, r: ReadingView, now: Seq<char>) -> FactsView {
    FactsView {
        sensor_id: reading::or_else(f.sensor_id, Some(r.sensor)),
        sensor_name: reading::or_else(f.sensor_name, Some(r.sensor)),
        seed: reading::or_else(f.seed, Some(seed_of_reading(r, now))),
        ..f
    }
}

/// The facts after a log line of the device, which announces the firmware `fw`.
pub open spec fn after_log(f: FactsView, fw: Option<Seq<char>>) -> FactsView {
    FactsView {
        firmware: best(f.firmware_announced, f.firmware, fw),
        firmware_announced: f.firmware_announced || fw is Some,
        ..f
    }
}

/// The facts after a publish of the device: the firmware from its log, and the sensor id and
/// a seed from a reading. `doc` and `read` are what the payload was read as.
pub open spec fn after_device_publish(
    f: FactsView,
    topic: Seq<char>,
    payload: Seq<u8>,
    doc: Option<Json>,
    read: Option<PayloadView>,
    now: Seq<char>,
) -> FactsView {
    if "/log"@.is_suffix_of(topic) {
        after_log(f, firmware::logged_firmware(doc, payload))
    } else if "/read"@.is_suffix_of(topic) {
        match server::reading_in(read) {
            Some(r) => after_reading(f, r, now),
            None => f,
        }
    } else {
        f
    }
}

/// The level in a JSON number, and zero where there is none.
pub open spec fn level_in(v: Option<Json>) -> Decimal {
    let none = Decimal { negative: false, digits: 0, exp: 0 };
    match v {
        Some(v) => match v.number_text() {
            Some(s) => match decimal::decimal_of(s) {
                Some(d) => d,
                None => none,
            },
            None => none,
        },
        None => none,
    }
}

/// An integer, and zero where there is none.
pub open spec fn or_zero(n: Option<i64>) -> i64 {
    match n {
        Some(n) => n,
        None => 0,
    }
}

/// The seed in the first sensor of a `/state` document, taken verbatim.
pub open spec fn seed_in(doc: Json, sensor: Json) -> SeedView {
    SeedView {
        lvl: level_in(sensor.member("lvl"@)),
        pct: or_zero(sensor.member_integer("pct"@)),
        bat: or_zero(sensor.member_integer("bat"@)),
        days_left: or_zero(sensor.member_integer("daysLeft"@)),
        lvl_to_full: or_zero(sensor.member_integer("lvlToFull"@)),
        lst_empty: match sensor.member_text("lstEmpty"@) {
            Some(s) => s,
            None => Seq::empty(),
        },
        from: match doc.member_text("from"@) {
            Some(s) => s,
            None => "node-4"@,
        },
    }
}

/// The facts after the first sensor of the cloud's `/state` document: the best seed, and the
/// sensor's identity.
pub open spec fn after_sensor(f: FactsView, doc: Json, sensor: Json) -> FactsView {
    let id = sensor.member_text("id"@);
    let name = sensor.member_text("name"@);
    FactsView {
        sensor_id: best(f.id_from_cloud, f.sensor_id, id),
        sensor_name: best(f.name_from_cloud, f.sensor_name, name),
        seed: best(f.seed_from_cloud, f.seed, Some(seed_in(doc, sensor))),
        id_from_cloud: f.id_from_cloud || id is Some,
        name_from_cloud: f.name_from_cloud || name is Some,
        seed_from_cloud: true,
        ..f
    }
}

/// The facts after the cloud's `/state` document.
pub open spec fn after_state_document(f: FactsView, doc: Json) -> FactsView {
    match doc.member("sensors"@) {
        Some(sensors) => match sensors.element(0) {
            Some(sensor) => after_sensor(f, doc, sensor),
            None => f,
        },
        None => f,
    }
}

/// A text that is not empty.
pub open spec fn nonempty(s: Option<Seq<char>>) -> Option<Seq<char>> {
    match s {
        Some(s) => if s.len() > 0 {
            Some(s)
        } else {
            None
        },
        None => None,
    }
}

/// The facts after the cloud's radar parameters.
pub open spec fn after_radar_document(f: FactsView, doc: Json) -> FactsView {
    FactsView {
        sensor_id: reading::or_else(f.sensor_id, nonempty(doc.member_text("sensor"@))),
        radar_skip: reading::or_else(f.radar_skip, doc.member_integer("skip"@)),
        radar_repeat: reading::or_else(f.radar_repeat, doc.member_integer("repeat"@)),
        ..f
    }
}

/// The firmware that the cloud echoes, as a fallback for the device's own announcement.
pub open spec fn echoed_firmware(payload: Seq<u8>) -> Option<Seq<char>> {
    match firmware::payload_text(payload) {
        Some(s) => nonempty(Some(text::trimmed(s))),
        None => None,
    }
}

/// The facts after a publish of the cloud, whose payload was read as `doc`.
pub open spec fn after_cloud_publish(
    f: FactsView,
    topic: Seq<char>,
    payload: Seq<u8>,
    doc: Option<Json>,
) -> FactsView {
    if "/version/"@.is_prefix_of(topic) {
        FactsView { firmware: reading::or_else(f.firmware, echoed_firmware(payload)), ..f }
    } else if "/state"@.is_suffix_of(topic) {
        match doc {
            Some(doc) => after_state_document(f, doc),
            None => f,
        }
    } else if "/radarParams"@.is_suffix_of(topic) {
        match doc {
            Some(doc) => after_radar_document(f, doc),
            None => f,
        }
    } else {
        f
    }
}

/// Whether everything that a usable configuration needs is known.
pub open spec fn complete(f: FactsView) -> bool {
    &&& f.receiver_id is Some
    &&& f.mqtt_user is Some
    &&& f.mqtt_pass is Some
    &&& f.firmware is Some
    &&& f.sensor_id is Some
    &&& f.seed is Some
}

/// A name where something is missing, and nothing where it is there.
pub open spec fn name_if(absent: bool, name: Seq<char>) -> Seq<Seq<char>> {
    if absent {
        seq![name]
    } else {
        Seq::empty()
    }
}

/// The names of what is still missing.
pub open spec fn missing_names(f: FactsView) -> Seq<Seq<char>> {
    name_if(f.receiver_id is None, "receiver_id"@) + name_if(f.mqtt_user is None, "mqtt_user"@)
        + name_if(f.mqtt_pass is None, "mqtt_pass"@) + name_if(f.firmware is None, "firmware"@)
        + name_if(f.sensor_id is None, "sensor_id"@) + name_if(f.seed is None, "state"@)
}

/// The texts of a list of string slices.
pub open spec fn slices(list: Seq<&'static str>) -> Seq<Seq<char>> {
    list.map_values(|s: &'static str| s@)
}

fn keep_text(kept: &mut Option<String>, new: Option<String>)
    ensures
        text::optional_text(*final(kept)) == reading::or_else(
            text::optional_text(*old(kept)),
            text::optional_text(new),
        ),
{
    if kept.is_none() {
        *kept = new;
    }
}

fn keep_number(kept: &mut Option<i64>, new: Option<i64>)
    ensures
        *final(kept) == reading::or_else(*old(kept), new),
{
    if kept.is_none() {
        *kept = new;
    }
}

fn keep_seed(kept: &mut Option<Seed>, new: Seed)
    ensures
        optional_seed(*final(kept)) == reading::or_else(optional_seed(*old(kept)), Some(new@)),
{
    if kept.is_none() {
        *kept = Some(new);
    }
}

fn settle_text(settled: &mut bool, kept: &mut Option<String>, new: Option<String>)
    ensures
        text::optional_text(*final(kept)) == best(
            *old(settled),
            text::optional_text(*old(kept)),
            text::optional_text(new),
        ),
        *final(settled) == (*old(settled) || new is Some),
{
    if !*settled && new.is_some() {
        *kept = new;
        *settled = true;
    }
}

fn settle_seed(settled: &mut bool, kept: &mut Option<Seed>, new: Seed)
    ensures
        optional_seed(*final(kept)) == best(
            *old(settled),
            optional_seed(*old(kept)),
            Some(new@),
        ),
        *final(settled),
{
    if !*settled {
        *kept = Some(new);
        *settled = true;
    }
}

fn name_missing(out: &mut Vec<&'static str>, absent: bool, name: &'static str)
    ensures
        slices(final(out)@) == slices(old(out)@) + name_if(absent, name@),
{
    let ghost before = slices(out@);
    if absent {
        out.push(name);
    }
    assert(slices(out@) =~= before + name_if(absent, name@));
}

fn optional_level(v: Option<&Value>) -> (d: Decimal)
    ensures
        d == level_in(
            match v {
                Some(v) => Some(json::json_tree(*v)),
                None => None,
            },
        ),
{
    let none = Decimal { negative: false, digits: 0, exp: 0 };
    match v {
        Some(v) => match json::number_text(v) {
            Some(s) => match Decimal::parse(s.as_str()) {
                Some(d) => d,
                None => none,
            },
            None => none,
        },
        None => none,
    }
}

fn integer_or_zero(v: &Value, key: &str) -> (n: i64)
    ensures
        n == or_zero(json::json_tree(*v).member_integer(key@)),
{
    match json::member_integer(v, key) {
        Some(n) => n,
        None => 0,
    }
}

impl Facts {
    /// Records the device's CONNECT.
    pub fn apply_device_connect(&mut self, c: &Connect)
        ensures
            final(self)@ == after_connect(old(self)@, c@),
    {
        keep_text(&mut self.client_id, Some(c.client_id.clone()));
        keep_text(&mut self.mqtt_user, c.username.clone());
        keep_text(&mut self.receiver_id, c.username.clone());
        keep_text(&mut self.mqtt_pass, c.password.clone());
        let id: &str = c.client_id.as_str();
        let rid: String = if text::starts_with(id, CLIENT_ID_PREFIX) {
            let s: String = id.substring_char(CLIENT_ID_PREFIX.unicode_len(), id.unicode_len()).to_owned();
            assert(s@ =~= id@.skip(CLIENT_ID_PREFIX@.len() as int));
            s
        } else {
            id.to_owned()
        };
        keep_text(&mut self.receiver_id, Some(rid));
    }

    /// Records a reading of the device.
    pub fn apply_reading(&mut self, reading: &Reading, now: &str)
        ensures
            final(self)@ == after_reading(old(self)@, reading@, now@),
    {
        keep_text(&mut self.sensor_id, Some(reading.sensor.clone()));
        keep_text(&mut self.sensor_name, Some(reading.sensor.clone()));
        let cal: Calibration = Calibration::default();
        let curve: BatteryCurve = BatteryCurve::default();
        keep_seed(
            &mut self.seed,
            Seed {
                lvl: reading.level_cm,
                pct: cal.pct(reading.level_cm),
                bat: curve.percent(reading.battery_mv),
                days_left: 0,
                lvl_to_full: cal.lvl_to_full(reading.level_cm),
                lst_empty: now.to_owned(),
                from: "node-4".to_owned(),
            },
        );
    }

    /// Records a publish that the device sent. `read` is the payload as the fields of a
    /// `/read`, where it is a JSON object that has them.
    pub fn apply_device_publish(
        &mut self,
        topic: &str,
        payload: &[u8],
        read: Option<&ReadPayload>,
        now: &str,
    )
        ensures
            final(self)@ == after_device_publish(
                old(self)@,
                topic@,
                payload@,
                json::json_document(payload@),
                match read {
                    Some(p) => Some(p@),
                    None => None,
                },
                now@,
            ),
    {
        if text::ends_with(topic, "/log") {
            settle_text(
                &mut self.firmware_announced,
                &mut self.firmware,
                firmware::firmware_from_log(payload),
            );
        } else if text::ends_with(topic, "/read") {
            if let Some(p) = read {
                if let Ok(reading) = Reading::parse(p) {
                    self.apply_reading(&reading, now);
                }
            }
        }
    }

    /// Records the cloud's `/state` document.
    pub fn apply_state_document(&mut self, doc: &Value)
        ensures
            final(self)@ == after_state_document(old(self)@, json::json_tree(*doc)),
    {
        if let Some(sensors) = json::member(doc, "sensors") {
            if let Some(sensor) = json::element(sensors, 0) {
                settle_text(
                    &mut self.id_from_cloud,
                    &mut self.sensor_id,
                    json::member_text(sensor, "id"),
                );
                settle_text(
                    &mut self.name_from_cloud,
                    &mut self.sensor_name,
                    json::member_text(sensor, "name"),
                );
                let lst_empty: String = match json::member_text(sensor, "lstEmpty") {
                    Some(s) => s,
                    None => String::new(),
                };
                let from: String = match json::member_text(doc, "from") {
                    Some(s) => s,
                    None => "node-4".to_owned(),
                };
                settle_seed(
                    &mut self.seed_from_cloud,
                    &mut self.seed,
                    Seed {
                        lvl: optional_level(json::member(sensor, "lvl")),
                        pct: integer_or_zero(sensor, "pct"),
                        bat: integer_or_zero(sensor, "bat"),
                        days_left: integer_or_zero(sensor, "daysLeft"),
                        lvl_to_full: integer_or_zero(sensor, "lvlToFull"),
                        lst_empty,
                        from,
                    },
                );
            }
        }
    }

    /// Records the cloud's radar parameters.
    pub fn apply_radar_document(&mut self, doc: &Value)
        ensures
            final(self)@ == after_radar_document(old(self)@, json::json_tree(*doc)),
    {
        if let Some(s) = json::member_text(doc, "sensor") {
            if !s.as_str().is_empty() {
                keep_text(&mut self.sensor_id, Some(s));
            }
        }
        keep_number(&mut self.radar_skip, json::member_integer(doc, "skip"));
        keep_number(&mut self.radar_repeat, json::member_integer(doc, "repeat"));
    }

    /// Records the cloud's retained `/state`.
    pub fn apply_cloud_state(&mut self, payload: &[u8])
        ensures
            final(self)@ == (match json::json_document(payload@) {
                Some(doc) => after_state_document(old(self)@, doc),
                None => old(self)@,
            }),
    {
        if let Some(doc) = json::parse(payload) {
            self.apply_state_document(&doc);
        }
    }

    /// Records a publish that the cloud sent.
    pub fn apply_cloud_publish(&mut self, topic: &str, payload: &[u8])
        ensures
            final(self)@ == after_cloud_publish(
                old(self)@,
                topic@,
                payload@,
                json::json_document(payload@),
            ),
    {
        if text::starts_with(topic, "/version/") {
            if let Some(all) = text::utf8_text(payload) {
                let s: &str = text::trim(all.as_str());
                if !s.is_empty() {
                    keep_text(&mut self.firmware, Some(s.to_owned()));
                }
            }
        } else if text::ends_with(topic, "/state") {
            self.apply_cloud_state(payload);
        } else if text::ends_with(topic, "/radarParams") {
            if let Some(doc) = json::parse(payload) {
                self.apply_radar_document(&doc);
            }
        }
    }

    /// Whether everything that a usable configuration needs is known.
    pub fn is_complete(&self) -> (r: bool)
        ensures
            r == complete(self@),
    {
        self.receiver_id.is_some() && self.mqtt_user.is_some() && self.mqtt_pass.is_some()
            && self.firmware.is_some() && self.sensor_id.is_some() && self.seed.is_some()
    }

    /// Names what is still missing.
    pub fn missing(&self) -> (out: Vec<&'static str>)
        ensures
            slices(out@) == missing_names(self@),
    {
        let mut out: Vec<&'static str> = Vec::new();
        assert(slices(out@) =~= Seq::empty());
        name_missing(&mut out, self.receiver_id.is_none(), "receiver_id");
        name_missing(&mut out, self.mqtt_user.is_none(), "mqtt_user");
        name_missing(&mut out, self.mqtt_pass.is_none(), "mqtt_pass");
        name_missing(&mut out, self.firmware.is_none(), "firmware");
        name_missing(&mut out, self.sensor_id.is_none(), "sensor_id");
        name_missing(&mut out, self.seed.is_none(), "state");
        assert(slices(out@) =~= missing_names(self@));
        out
    }
}

/// The name of the sensor, and its id where it has none.
pub open spec fn display_name(f: FactsView) -> Seq<char> {
    match f.sensor_name {
        Some(name) => name,
        None => f.sensor_id->0,
    }
}

/// An integer, and the documented default of nine where there is none.
pub open spec fn or_nine(n: Option<i64>) -> i64 {
    match n {
        Some(n) => n,
        None => 9,
    }
}

/// The lines of the configuration file for complete facts.
pub open spec fn config_lines(f: FactsView, data_dir: Seq<char>) -> Seq<Seq<char>> {
    seq![
        "# Generated by aquilo-server onboarding — recovered from your live device."@,
        "# All topics derive from receiver_id; the firmware came from the device's own"@,
        "# /log announcement. Calibration is the documented default (40/178); adjust"@,
        "# full_dist/empty_dist if pct/lvlToFull don't match your tank."@,
        Seq::empty(),
        config_file::entry("receiver_id"@, config_file::quoted(f.receiver_id->0)),
        config_file::entry("sensor_id"@, config_file::quoted(f.sensor_id->0)),
        config_file::entry("mqtt_user"@, config_file::quoted(f.mqtt_user->0)),
        config_file::entry("mqtt_pass"@, config_file::quoted(f.mqtt_pass->0)),
        config_file::entry("firmware_version"@, config_file::quoted(f.firmware->0)),
        config_file::entry("sensor_name"@, config_file::quoted(display_name(f))),
        Seq::empty(),
        config_file::entry("radar_skip"@, number::integer_text(or_nine(f.radar_skip) as int)),
        config_file::entry("radar_repeat"@, number::integer_text(or_nine(f.radar_repeat) as int)),
        Seq::empty(),
        config_file::entry("bind_addr"@, config_file::quoted("0.0.0.0"@)),
        config_file::entry("listen_port"@, "1883"@),
        config_file::entry("ping_interval_secs"@, "1200"@),
        Seq::empty(),
        config_file::entry("data_dir"@, config_file::quoted(data_dir)),
        config_file::entry("history_max_len"@, "500"@),
        config_file::entry("pump_out_drop_pct"@, "25"@),
        Seq::empty(),
        "[calibration]"@,
        config_file::entry(
            "full_dist"@,
            decimal::decimal_text(calibration::default_calibration().full_dist),
        ),
        config_file::entry(
            "empty_dist"@,
            decimal::decimal_text(calibration::default_calibration().empty_dist),
        ),
        Seq::empty(),
        "[state]"@,
        config_file::entry("lvl"@, decimal::decimal_text(f.seed->0.lvl)),
        config_file::entry("pct"@, number::integer_text(f.seed->0.pct as int)),
        config_file::entry("bat"@, number::integer_text(f.seed->0.bat as int)),
        config_file::entry("days_left"@, number::integer_text(f.seed->0.days_left as int)),
        config_file::entry("lvl_to_full"@, number::integer_text(f.seed->0.lvl_to_full as int)),
        config_file::entry("lst_empty"@, config_file::quoted(f.seed->0.lst_empty)),
        config_file::entry("from"@, config_file::quoted(f.seed->0.from)),
    ]
}

/// The configuration file for complete facts.
pub open spec fn config_text(f: FactsView, data_dir: Seq<char>) -> Seq<char> {
    config_file::lines_text(config_lines(f, data_dir))
}

fn copy_text(s: &Option<String>) -> (r: String)
    requires
        s is Some,
    ensures
        Some(r@) == text::optional_text(*s),
{
    match s {
        Some(s) => s.clone(),
        None => String::new(),
    }
}

fn number_or_nine(n: Option<i64>) -> (r: i64)
    ensures
        r == or_nine(n),
{
    match n {
        Some(n) => n,
        None => 9,
    }
}

fn copy_name(f: &Facts) -> (r: String)
    requires
        f.sensor_id is Some,
    ensures
        r@ == display_name(f@),
{
    match &f.sensor_name {
        Some(name) => name.clone(),
        None => copy_text(&f.sensor_id),
    }
}

/// Renders the configuration file, or names what is missing for it. The calibration is the
/// documented default, which is the only part that cannot be recovered from the wire.
pub fn render_config(facts: &Facts, opts: &OnboardOptions) -> (r: Result<String, Vec<&'static str>>)
    ensures
        match r {
            Ok(s) => complete(facts@) && s@ == config_text(facts@, opts.data_dir@),
            Err(names) => !complete(facts@) && slices(names@) == missing_names(facts@),
        },
{
    if !facts.is_complete() {
        return Err(facts.missing());
    }
    let seed: &Seed = match &facts.seed {
        Some(seed) => seed,
        None => {
            return Err(facts.missing());
        },
    };
    let cal: Calibration = Calibration::default();
    let rid: String = copy_text(&facts.receiver_id);
    let sid: String = copy_text(&facts.sensor_id);
    let user: String = copy_text(&facts.mqtt_user);
    let pass: String = copy_text(&facts.mqtt_pass);
    let fw: String = copy_text(&facts.firmware);
    let name: String = copy_name(facts);
    let skip: i64 = number_or_nine(facts.radar_skip);
    let repeat: i64 = number_or_nine(facts.radar_repeat);
    let mut lines: Vec<String> = Vec::new();
    lines.push(
        "# Generated by aquilo-server onboarding — recovered from your live device.".to_owned(),
    );
    lines.push(
        "# All topics derive from receiver_id; the firmware came from the device's own".to_owned(),
    );
    lines.push("# /log announcement. Calibration is the documented default (40/178); adjust".to_owned());
    lines.push("# full_dist/empty_dist if pct/lvlToFull don't match your tank.".to_owned());
    lines.push(String::new());
    lines.push(config_file::text_entry("receiver_id", rid.as_str()));
    lines.push(config_file::text_entry("sensor_id", sid.as_str()));
    lines.push(config_file::text_entry("mqtt_user", user.as_str()));
    lines.push(config_file::text_entry("mqtt_pass", pass.as_str()));
    lines.push(config_file::text_entry("firmware_version", fw.as_str()));
    lines.push(config_file::text_entry("sensor_name", name.as_str()));
    lines.push(String::new());
    lines.push(config_file::bare_entry("radar_skip", number::write_integer(skip).as_str()));
    lines.push(config_file::bare_entry("radar_repeat", number::write_integer(repeat).as_str()));
    lines.push(String::new());
    lines.push(config_file::text_entry("bind_addr", "0.0.0.0"));
    lines.push(config_file::bare_entry("listen_port", "1883"));
    lines.push(config_file::bare_entry("ping_interval_secs", "1200"));
    lines.push(String::new());
    lines.push(config_file::text_entry("data_dir", opts.data_dir.as_str()));
    lines.push(config_file::bare_entry("history_max_len", "500"));
    lines.push(config_file::bare_entry("pump_out_drop_pct", "25"));
    lines.push(String::new());
    lines.push("[calibration]".to_owned());
    lines.push(config_file::bare_entry("full_dist", cal.full_dist.text().as_str()));
    lines.push(config_file::bare_entry("empty_dist", cal.empty_dist.text().as_str()));
    lines.push(String::new());
    lines.push("[state]".to_owned());
    lines.push(config_file::bare_entry("lvl", seed.lvl.text().as_str()));
    lines.push(config_file::bare_entry("pct", number::write_integer(seed.pct).as_str()));
    lines.push(config_file::bare_entry("bat", number::write_integer(seed.bat).as_str()));
    lines.push(config_file::bare_entry("days_left", number::write_integer(seed.days_left).as_str()));
    lines.push(config_file::bare_entry("lvl_to_full", number::write_integer(seed.lvl_to_full).as_str()));
    lines.push(config_file::text_entry("lst_empty", seed.lst_empty.as_str()));
    lines.push(config_file::text_entry("from", seed.from.as_str()));
    assert(text::texts(lines@) =~= config_lines(facts@, opts.data_dir@));
    Ok(config_file::write_lines(&lines))
}

/// What onboarding writes.
pub struct Outputs {
    /// Contents of the configuration file.
    pub config: String,
    /// The initial state, which `serve` starts from.
    pub state: PersistedState,
}

/// The state that complete facts seed.
pub open spec fn last_state_of(f: FactsView, now: Seq<char>) -> StateView {
    let seed = f.seed->0;
    StateView {
        id: f.sensor_id->0,
        name: display_name(f),
        lvl: seed.lvl,
        pct: seed.pct,
        bat: seed.bat,
        lst_read: now,
        lst_empty: seed.lst_empty,
        days_left: seed.days_left,
        lvl_to_full: seed.lvl_to_full,
        from: seed.from,
    }
}

/// The initial state for complete facts: the seed as the last computed `/state`, and no
/// history.
pub open spec fn initial_state_of(f: FactsView, now: Seq<char>) -> PersistedView {
    PersistedView {
        history: Seq::empty(),
        lst_empty: f.seed->0.lst_empty,
        last_state: Some(last_state_of(f, now)),
        calibration: calibration::default_calibration(),
    }
}

fn initial_state(f: &Facts, seed: &Seed, now: &str) -> (p: PersistedState)
    requires
        f.sensor_id is Some,
        f@.seed == Some(seed@),
    ensures
        p@ == initial_state_of(f@, now@),
{
    let p = PersistedState {
        history: Vec::new(),
        lst_empty: seed.lst_empty.clone(),
        last_state: Some(
            SensorState {
                id: copy_text(&f.sensor_id),
                name: copy_name(f),
                lvl: seed.lvl,
                pct: seed.pct,
                bat: seed.bat,
                lst_read: now.to_owned(),
                lst_empty: seed.lst_empty.clone(),
                days_left: seed.days_left,
                lvl_to_full: seed.lvl_to_full,
                from: seed.from.clone(),
            },
        ),
        calibration: Calibration::default(),
    };
    assert(p@.history =~= Seq::empty());
    p
}

/// Prepares what is to be written, or names what is missing for it.
pub fn outputs(facts: &Facts, opts: &OnboardOptions, now: &str) -> (r: Result<
    Outputs,
    Vec<&'static str>,
>)
    ensures
        match r {
            Ok(o) => {
                &&& complete(facts@)
                &&& o.config@ == config_text(facts@, opts.data_dir@)
                &&& o.state@ == initial_state_of(facts@, now@)
            },
            Err(names) => !complete(facts@) && slices(names@) == missing_names(facts@),
        },
{
    let config: String = match render_config(facts, opts) {
        Ok(config) => config,
        Err(names) => {
            return Err(names);
        },
    };
    match &facts.seed {
        Some(seed) => Ok(Outputs { config, state: initial_state(facts, seed, now) }),
        None => Err(facts.missing()),
    }
}

/// Whether it is time to write: the facts are complete, and the outputs were not written
/// before.
pub open spec fn due(f: FactsView, written: bool) -> bool {
    complete(f) && !written
}

/// Decides whether to write: once, when the facts are complete. `written` says whether the
/// outputs were written before; [`written_after`] says how it goes on.
pub fn finalize(facts: &Facts, opts: &OnboardOptions, written: bool, now: &str) -> (r: Option<
    Outputs,
>)
    ensures
        r is Some <==> due(facts@, written),
        r matches Some(o) ==> {
            &&& o.config@ == config_text(facts@, opts.data_dir@)
            &&& o.state@ == initial_state_of(facts@, now@)
        },
{
    if written {
        return None;
    }
    match outputs(facts, opts, now) {
        Ok(o) => Some(o),
        Err(_) => None,
    }
}

/// Whether the outputs are written after an attempt: where it was time to write, whether
/// writing succeeded, so that a later packet retries after a failure; otherwise as before.
pub open spec fn after_attempt(f: FactsView, written: bool, succeeded: bool) -> bool {
    if due(f, written) {
        succeeded
    } else {
        written
    }
}

/// Says whether the outputs are written after an attempt that did or did not succeed.
pub fn written_after(facts: &Facts, written: bool, succeeded: bool) -> (r: bool)
    ensures
        r == after_attempt(facts@, written, succeeded),
{
    if facts.is_complete() && !written {
        succeeded
    } else {
        written
    }
}

/// Whether the outputs are written after a series of attempts, each with the facts at that
/// time and whether writing would succeed.
pub open spec fn written_after_all(written: bool, attempts: Seq<(FactsView, bool)>) -> bool
    decreases attempts.len(),
{
    if attempts.len() == 0 {
        written
    } else {
        let (f, succeeded) = attempts.last();
        after_attempt(f, written_after_all(written, attempts.drop_last()), succeeded)
    }
}

/// How many attempts of a series write the outputs.
pub open spec fn writes(written: bool, attempts: Seq<(FactsView, bool)>) -> nat
    decreases attempts.len(),
{
    if attempts.len() == 0 {
        0
    } else {
        let (f, succeeded) = attempts.last();
        let before = attempts.drop_last();
        writes(written, before) + if due(f, written_after_all(written, before)) && succeeded {
            1nat
        } else {
            0nat
        }
    }
}

/// The facts after a packet of the device, in `learn`.
pub open spec fn after_device_packet(
    f: FactsView,
    pkt: PacketView,
    read: Option<PayloadView>,
    now: Seq<char>,
) -> FactsView {
    match pkt {
        PacketView::Connect(c) => after_connect(f, c),
        PacketView::Publish(p) => after_device_publish(
            f,
            p.topic,
            p.payload,
            json::json_document(p.payload),
            read,
            now,
        ),
        _ => f,
    }
}

/// The facts after a packet of the cloud, in `learn`.
pub open spec fn after_cloud_packet(f: FactsView, pkt: PacketView) -> FactsView {
    match pkt {
        PacketView::Publish(p) => after_cloud_publish(
            f,
            p.topic,
            p.payload,
            json::json_document(p.payload),
        ),
        _ => f,
    }
}

/// Records a packet on its way from the device to the cloud.
pub fn learn_from_device(facts: &mut Facts, pkt: &Packet, read: Option<&ReadPayload>, now: &str)
    ensures
        final(facts)@ == after_device_packet(
            old(facts)@,
            pkt@,
            match read {
                Some(p) => Some(p@),
                None => None,
            },
            now@,
        ),
{
    match pkt {
        Packet::Connect(c) => {
            facts.apply_device_connect(c);
        },
        Packet::Publish(p) => {
            facts.apply_device_publish(p.topic.as_str(), p.payload.as_slice(), read, now);
        },
        _ => {},
    }
}

/// Records a packet on its way from the cloud to the device.
pub fn learn_from_cloud(facts: &mut Facts, pkt: &Packet)
    ensures
        final(facts)@ == after_cloud_packet(old(facts)@, pkt@),
{
    match pkt {
        Packet::Publish(p) => {
            facts.apply_cloud_publish(p.topic.as_str(), p.payload.as_slice());
        },
        _ => {},
    }
}

/// The neutral `/state` that the device can serve during onboarding.
pub open spec fn placeholder_state(sensor: Seq<char>, now: Seq<char>) -> StateView {
    StateView {
        id: sensor,
        name: sensor,
        lvl: decimal::fraction(1502, 1),
        pct: 20,
        bat: 83,
        lst_read: now,
        lst_empty: Seq::empty(),
        days_left: 0,
        lvl_to_full: 110,
        from: "node-4"@,
    }
}

/// Builds the neutral `/state` that the device can serve during onboarding.
pub fn default_seed_state(sensor: &str, now: &str) -> (s: SensorState)
    ensures
        s@ == placeholder_state(sensor@, now@),
{
    SensorState {
        id: sensor.to_owned(),
        name: sensor.to_owned(),
        lvl: defaults::seed_lvl(),
        pct: 20,
        bat: 83,
        lst_read: now.to_owned(),
        lst_empty: String::new(),
        days_left: 0,
        lvl_to_full: 110,
        from: "node-4".to_owned(),
    }
}

/// The three retained connect-time messages from documented defaults, as packets. Where the
/// sensor id is not known yet, the receiver id stands in for it.
pub open spec fn placeholder_packets(
    rid: Seq<char>,
    firmware: Seq<char>,
    sensor_id: Option<Seq<char>>,
    now: Seq<char>,
) -> Seq<Seq<u8>> {
    let t = topics::topics_of(rid);
    let sensor = match sensor_id {
        Some(id) => id,
        None => rid,
    };
    seq![
        mqtt_wire::publish_packet(t.version, vstd::utf8::encode_utf8(firmware), true),
        mqtt_wire::publish_packet(
            t.radar_params,
            json::json_encoding(server::radar_json(sensor, 9, 9)),
            true,
        ),
        mqtt_wire::publish_packet(
            t.state,
            json::json_encoding(state::state_json(placeholder_state(sensor, now))),
            true,
        ),
    ]
}

/// What byte strings hold.
pub open spec fn contents(list: Seq<Vec<u8>>) -> Seq<Seq<u8>> {
    list.map_values(|b: Vec<u8>| b@)
}

/// Builds the three retained connect-time messages from documented defaults.
pub fn seed_retained(rid: &str, firmware: &str, sensor_id: &Option<String>, now: &str) -> (out: Vec<
    Vec<u8>,
>)
    ensures
        contents(out@) == placeholder_packets(
            rid@,
            firmware@,
            text::optional_text(*sensor_id),
            now@,
        ),
{
    let topics: Topics = Topics::new(rid);
    let sensor: String = match sensor_id {
        Some(id) => id.clone(),
        None => rid.to_owned(),
    };
    let mut out: Vec<Vec<u8>> = Vec::new();
    out.push(mqtt_wire::publish(topics.version.as_str(), firmware.as_bytes(), true));
    let radar: Vec<u8> = json::encode(&server::radar_params(sensor.as_str(), 9, 9));
    out.push(mqtt_wire::publish(topics.radar_params.as_str(), radar.as_slice(), true));
    let state: Vec<u8> = json::encode(&default_seed_state(sensor.as_str(), now).to_json());
    out.push(mqtt_wire::publish(topics.state.as_str(), state.as_slice(), true));
    assert(contents(out@) =~= placeholder_packets(
        rid@,
        firmware@,
        text::optional_text(*sensor_id),
        now@,
    ));
    out
}

/// One device session in `observe`.
pub struct ObserveSession {
    pub facts: Facts,
    /// Whether the device has subscribed.
    pub subscribed: bool,
    /// Whether the retained messages were sent.
    pub seeded: bool,
}

/// What an [`ObserveSession`] holds.
pub struct ObserveView {
    pub facts: FactsView,
    pub subscribed: bool,
    pub seeded: bool,
}

impl View for ObserveSession {
    type V = ObserveView;

    open spec fn view(&self) -> ObserveView {
        ObserveView { facts: self.facts@, subscribed: self.subscribed, seeded: self.seeded }
    }
}

/// Something for the caller to do in `observe`.
pub enum Reply {
    /// Send these bytes to the device.
    Send(Vec<u8>),
    /// See whether the outputs can be written.
    Finalize,
    /// Close the connection.
    Close,
}

/// What a [`Reply`] holds.
pub enum ReplyView {
    Send(Seq<u8>),
    Finalize,
    Close,
}

impl View for Reply {
    type V = ReplyView;

    open spec fn view(&self) -> ReplyView {
        match self {
            Reply::Send(b) => ReplyView::Send(b@),
            Reply::Finalize => ReplyView::Finalize,
            Reply::Close => ReplyView::Close,
        }
    }
}

/// What a list of replies holds.
pub open spec fn replies(list: Seq<Reply>) -> Seq<ReplyView> {
    list.map_values(|r: Reply| r@)
}

/// The session and the replies after a packet: every packet that asks for an answer gets it,
/// and what the device reveals is recorded.
pub open spec fn after_packet(
    s: ObserveView,
    pkt: PacketView,
    read: Option<PayloadView>,
    now: Seq<char>,
) -> (ObserveView, Seq<ReplyView>) {
    let facts = after_device_packet(s.facts, pkt, read, now);
    match pkt {
        PacketView::Connect(_) => (
            ObserveView { facts, ..s },
            seq![ReplyView::Send(seq![0x20u8, 0x02u8, 0x00u8, 0x00u8])],
        ),
        PacketView::Subscribe(sub) => (
            ObserveView { subscribed: true, ..s },
            seq![ReplyView::Send(mqtt_wire::suback_packet(sub.packet_id, sub.topics.len()))],
        ),
        PacketView::Publish(p) => (
            ObserveView { facts, ..s },
            match p.packet_id {
                Some(id) => seq![
                    ReplyView::Send(mqtt_wire::puback_packet(id)),
                    ReplyView::Finalize,
                ],
                None => seq![ReplyView::Finalize],
            },
        ),
        PacketView::PingReq => (s, seq![ReplyView::Send(seq![0xd0u8, 0x00u8])]),
        PacketView::Disconnect => (s, seq![ReplyView::Close]),
        PacketView::Other { .. } => (s, Seq::empty()),
    }
}

/// The session and the packets to send after a chunk: the retained messages, once the device
/// is subscribed and has announced its firmware.
pub open spec fn after_chunk(s: ObserveView, now: Seq<char>) -> (ObserveView, Seq<Seq<u8>>) {
    match (s.facts.receiver_id, s.facts.firmware) {
        (Some(rid), Some(fw)) => if s.subscribed && !s.seeded {
            (
                ObserveView { seeded: true, ..s },
                placeholder_packets(rid, fw, s.facts.sensor_id, now),
            )
        } else {
            (s, Seq::empty())
        },
        _ => (s, Seq::empty()),
    }
}

impl ObserveSession {
    /// A session with a device that has just connected.
    pub fn new() -> (s: ObserveSession)
        ensures
            s@ == (ObserveView { facts: no_facts(), subscribed: false, seeded: false }),
    {
        ObserveSession { facts: Facts::default(), subscribed: false, seeded: false }
    }

    /// Handles a packet of the device. `read` is the payload of a PUBLISH as the fields of a
    /// `/read`, where it is a JSON object that has them.
    pub fn on_packet(&mut self, pkt: &Packet, read: Option<&ReadPayload>, now: &str) -> (out: Vec<
        Reply,
    >)
        ensures
            (final(self)@, replies(out@)) == after_packet(
                old(self)@,
                pkt@,
                match read {
                    Some(p) => Some(p@),
                    None => None,
                },
                now@,
            ),
    {
        learn_from_device(&mut self.facts, pkt, read, now);
        let mut out: Vec<Reply> = Vec::new();
        match pkt {
            Packet::Connect(_) => {
                out.push(Reply::Send(mqtt_wire::connack()));
            },
            Packet::Subscribe(s) => {
                out.push(Reply::Send(mqtt_wire::suback(s.packet_id, s.topics.len())));
                self.subscribed = true;
            },
            Packet::Publish(p) => {
                if let Some(id) = p.packet_id {
                    out.push(Reply::Send(mqtt_wire::puback(id)));
                }
                out.push(Reply::Finalize);
            },
            Packet::PingReq => {
                out.push(Reply::Send(mqtt_wire::pingresp()));
            },
            Packet::Disconnect => {
                out.push(Reply::Close);
            },
            Packet::Other { .. } => {},
        }
        proof {
            let expected = after_packet(
                old(self)@,
                pkt@,
                match read {
                    Some(p) => Some(p@),
                    None => None,
                },
                now@,
            ).1;
            assert(replies(out@) =~= expected);
        }
        out
    }

    /// Sends the retained messages when it is time: after the packets of a chunk.
    pub fn on_chunk_end(&mut self, now: &str) -> (out: Vec<Vec<u8>>)
        ensures
            (final(self)@, contents(out@)) == after_chunk(old(self)@, now@),
    {
        let mut out: Vec<Vec<u8>> = Vec::new();
        assert(contents(out@) =~= Seq::empty());
        if self.subscribed && !self.seeded {
            if let (Some(rid), Some(fw)) = (&self.facts.receiver_id, &self.facts.firmware) {
                out = seed_retained(rid.as_str(), fw.as_str(), &self.facts.sensor_id, now);
                self.seeded = true;
            }
        }
        out
    }
}

/// Whether a value that was known is still the same.
pub open spec fn kept<T>(before: Option<T>, after: Option<T>) -> bool {
    before is Some ==> after == before
}

/// Whether facts only ever grew: whatever is known stays known, and stays the same but where
/// a better source was still to be heard.
pub open spec fn extends(before: FactsView, after: FactsView) -> bool {
    &&& kept(before.receiver_id, after.receiver_id)
    &&& kept(before.client_id, after.client_id)
    &&& kept(before.mqtt_user, after.mqtt_user)
    &&& kept(before.mqtt_pass, after.mqtt_pass)
    &&& kept(before.radar_skip, after.radar_skip)
    &&& kept(before.radar_repeat, after.radar_repeat)
    &&& before.firmware is Some ==> after.firmware is Some
    &&& before.sensor_id is Some ==> after.sensor_id is Some
    &&& before.sensor_name is Some ==> after.sensor_name is Some
    &&& before.seed is Some ==> after.seed is Some
    &&& before.firmware_announced ==> after.firmware_announced && kept(
        before.firmware,
        after.firmware,
    )
    &&& before.id_from_cloud ==> after.id_from_cloud && kept(before.sensor_id, after.sensor_id)
    &&& before.name_from_cloud ==> after.name_from_cloud && kept(
        before.sensor_name,
        after.sensor_name,
    )
    &&& before.seed_from_cloud ==> after.seed_from_cloud && kept(before.seed, after.seed)
}

/// Growth: whatever the device or the cloud sends, a fact that is known from its best source
/// stays as it is, every other one stays known, and complete facts stay complete.
pub proof fn law_known_facts_are_kept(
    f: FactsView,
    pkt: PacketView,
    read: Option<PayloadView>,
    now: Seq<char>,
)
    ensures
        extends(f, after_device_packet(f, pkt, read, now)),
        extends(f, after_cloud_packet(f, pkt)),
        complete(f) ==> complete(after_device_packet(f, pkt, read, now)),
        complete(f) ==> complete(after_cloud_packet(f, pkt)),
{
}

/// First come: a publish of the device never changes a fact that is known, but for the
/// firmware, which its own announcement settles.
pub proof fn law_device_changes_no_known_fact(
    f: FactsView,
    topic: Seq<char>,
    payload: Seq<u8>,
    doc: Option<Json>,
    read: Option<PayloadView>,
    now: Seq<char>,
)
    ensures
        ({
            let after = after_device_publish(f, topic, payload, doc, read, now);
            &&& kept(f.sensor_id, after.sensor_id)
            &&& kept(f.sensor_name, after.sensor_name)
            &&& kept(f.seed, after.seed)
        }),
{
}

/// Repetition: a packet that comes again adds nothing.
pub proof fn law_repeated_packets_add_nothing(
    f: FactsView,
    pkt: PacketView,
    read: Option<PayloadView>,
    now: Seq<char>,
)
    ensures
        ({
            let once = after_device_packet(f, pkt, read, now);
            after_device_packet(once, pkt, read, now) == once
        }),
        ({
            let once = after_cloud_packet(f, pkt);
            after_cloud_packet(once, pkt) == once
        }),
{
}

/// Completeness: facts are complete exactly when nothing is missing.
pub proof fn law_complete_means_nothing_missing(f: FactsView)
    ensures
        complete(f) <==> missing_names(f).len() == 0,
{
}

/// Firmware: what the device announces in its log is the firmware, whether the cloud echoes a
/// version before or after it.
pub proof fn law_device_firmware_beats_the_cloud(
    f: FactsView,
    log_topic: Seq<char>,
    log_payload: Seq<u8>,
    fw: Seq<char>,
    version_topic: Seq<char>,
    version_payload: Seq<u8>,
    doc: Option<Json>,
    now: Seq<char>,
)
    requires
        !f.firmware_announced,
        "/log"@.is_suffix_of(log_topic),
        "/version/"@.is_prefix_of(version_topic),
        firmware::logged_firmware(json::json_document(log_payload), log_payload) == Some(fw),
    ensures
        ({
            let log = json::json_document(log_payload);
            let log_first = after_cloud_publish(
                after_device_publish(f, log_topic, log_payload, log, None, now),
                version_topic,
                version_payload,
                doc,
            );
            let echo_first = after_device_publish(
                after_cloud_publish(f, version_topic, version_payload, doc),
                log_topic,
                log_payload,
                log,
                None,
                now,
            );
            &&& log_first.firmware == Some(fw)
            &&& echo_first.firmware == Some(fw)
        }),
{
}

/// Seed: the cloud's `/state` is the seed, and its sensor the identity, whether a reading of
/// the device comes before or after it.
pub proof fn law_cloud_state_is_the_seed(
    f: FactsView,
    doc: Json,
    sensor: Json,
    r: ReadingView,
    now: Seq<char>,
)
    requires
        !f.seed_from_cloud && !f.id_from_cloud && !f.name_from_cloud,
        doc.member("sensors"@) matches Some(sensors) && sensors.element(0) == Some(sensor),
    ensures
        ({
            let read_first = after_state_document(after_reading(f, r, now), doc);
            let state_first = after_reading(after_state_document(f, doc), r, now);
            &&& read_first == state_first
            &&& read_first.seed == Some(seed_in(doc, sensor))
            &&& sensor.member_text("id"@) is Some ==> read_first.sensor_id == sensor.member_text(
                "id"@,
            )
            &&& sensor.member_text("name"@) is Some ==> read_first.sensor_name
                == sensor.member_text("name"@)
        }),
{
}

/// State documents: what a state is written as is read back as its seed and identity, field
/// by field. The level is read back as the number that the document holds for it, which for
/// a short level is the level itself.
pub proof fn law_state_document_is_read_back(f: FactsView, s: StateView)
    requires
        !f.seed_from_cloud && !f.id_from_cloud && !f.name_from_cloud,
    ensures
        ({
            let after = after_state_document(f, state::state_json(s));
            &&& after.sensor_id == Some(s.id)
            &&& after.sensor_name == Some(s.name)
            &&& after.seed == Some(
                SeedView {
                    lvl: level_in(Some(state::level_json(s.lvl))),
                    pct: s.pct,
                    bat: s.bat,
                    days_left: s.days_left,
                    lvl_to_full: s.lvl_to_full,
                    lst_empty: s.lst_empty,
                    from: s.from,
                },
            )
            &&& s.lvl.short() ==> after.seed->0.lvl == s.lvl
        }),
{
    state::law_state_is_readable(s);
    if s.lvl.short() {
        decimal::law_decimal_text_reads_back(s.lvl);
    }
}

/// Written once: of any series of attempts at most one writes the outputs, none where they
/// were written before, and one that can succeed with complete facts makes sure of it.
pub proof fn law_outputs_are_written_once(written: bool, attempts: Seq<(FactsView, bool)>)
    ensures
        writes(written, attempts) <= 1,
        written ==> writes(written, attempts) == 0,
        written_after_all(written, attempts) <==> written || writes(written, attempts) == 1,
        forall|i: int|
            0 <= i < attempts.len() && complete(#[trigger] attempts[i].0) && attempts[i].1
                ==> written_after_all(written, attempts),
    decreases attempts.len(),
{
    if attempts.len() > 0 {
        let before = attempts.drop_last();
        law_outputs_are_written_once(written, before);
        assert forall|i: int|
            0 <= i < attempts.len() && complete(#[trigger] attempts[i].0)
                && attempts[i].1 implies written_after_all(written, attempts) by {
            if i < before.len() {
                assert(complete(before[i].0));
            }
        }
    }
}

/// Retry: a failure to write leaves it due, for the next packet.
pub proof fn law_failed_writing_is_retried(f: FactsView, written: bool)
    ensures
        due(f, written) ==> due(f, after_attempt(f, written, false)),
        !due(f, after_attempt(f, written, true)),
{
}

/// Receiver id: it is the user name of the CONNECT; without one it is the client id, less
/// the prefix of the firmware.
pub proof fn law_receiver_id_comes_from_the_connect(c: ConnectView, rid: Seq<char>)
    ensures
        c.username == Some(rid) ==> after_connect(no_facts(), c).receiver_id == Some(rid),
        c.username is None && c.client_id == CLIENT_ID_PREFIX@ + rid ==> after_connect(
            no_facts(),
            c,
        ).receiver_id == Some(rid),
{
    let id = CLIENT_ID_PREFIX@ + rid;
    let n = CLIENT_ID_PREFIX@.len() as int;
    assert(id.subrange(0, n) =~= CLIENT_ID_PREFIX@);
    assert(id.skip(n) =~= rid);
}

/// Cloud-free recovery: a CONNECT with credentials, a log line that names a firmware and a
/// reading are all that is needed; the identity is that of the device.
pub proof fn law_device_alone_suffices(
    client_id: Seq<char>,
    user: Seq<char>,
    pass: Seq<char>,
    log_topic: Seq<char>,
    log_payload: Seq<u8>,
    fw: Seq<char>,
    read_topic: Seq<char>,
    read_payload: Seq<u8>,
    read: PayloadView,
    r: ReadingView,
    now: Seq<char>,
)
    requires
        "/log"@.is_suffix_of(log_topic),
        firmware::logged_firmware(json::json_document(log_payload), log_payload) == Some(fw),
        "/read"@.is_suffix_of(read_topic),
        server::reading_in(Some(read)) == Some(r),
    ensures
        ({
            let f1 = after_connect(
                no_facts(),
                ConnectView { client_id, username: Some(user), password: Some(pass) },
            );
            let f2 = after_device_publish(
                f1,
                log_topic,
                log_payload,
                json::json_document(log_payload),
                None,
                now,
            );
            let f3 = after_device_publish(
                f2,
                read_topic,
                read_payload,
                json::json_document(read_payload),
                Some(read),
                now,
            );
            &&& complete(f3)
            &&& f3.receiver_id == Some(user)
            &&& f3.mqtt_user == Some(user)
            &&& f3.mqtt_pass == Some(pass)
            &&& f3.firmware == Some(fw)
            &&& f3.sensor_id == Some(r.sensor)
            &&& f3.seed == Some(seed_of_reading(r, now))
        }),
{
    reveal_strlit("/log");
    reveal_strlit("/read");
    let n = read_topic.len() as int;
    assert("/read"@ =~= read_topic.subrange(n - 5, n));
    assert("/read"@[4] == read_topic[n - 1]);
    if "/log"@.is_suffix_of(read_topic) {
        assert("/log"@ =~= read_topic.subrange(n - 4, n));
        assert("/log"@[3] == read_topic[n - 1]);
    }
}

/// First start: a `serve` session that starts from what onboarding wrote has the recovered
/// seed as its state and publishes it, retained, on connect.
pub proof fn law_serve_starts_from_the_recovered_seed(
    f: FactsView,
    cfg: crate::config::Config,
    stored: PersistedState,
    written_at: Seq<char>,
    now: Seq<char>,
)
    requires
        complete(f),
        stored@ == initial_state_of(f, written_at),
    ensures
        ({
            let rt = server::initial_runtime(cfg, server::Loaded::Found(stored), now);
            let t = topics::topics_of(cfg.receiver_id@);
            &&& rt.current == last_state_of(f, written_at)
            &&& rt.current.id == f.sensor_id->0
            &&& rt.current.lvl == f.seed->0.lvl
            &&& server::connect_messages(cfg, t, rt.current)[2] == server::state_message(
                t.state,
                last_state_of(f, written_at),
            )
        }),
{
}

/// Radar parameters: what `serve` sends as retained radar parameters is recovered by `learn`.
pub proof fn law_radar_params_are_recovered(sensor: Seq<char>, skip: i64, repeat: i64)
    requires
        sensor.len() > 0,
    ensures
        ({
            let f = after_radar_document(
                no_facts(),
                server::radar_json(sensor, skip as int, repeat as int),
            );
            &&& f.sensor_id == Some(sensor)
            &&& f.radar_skip == Some(skip)
            &&& f.radar_repeat == Some(repeat)
        }),
{
    server::law_radar_params_are_readable(sensor, skip, repeat);
}

/// Handshake: the retained messages are sent once, and only to a device that is subscribed
/// and has announced its firmware.
pub proof fn law_retained_messages_are_sent_once(s: ObserveView, now: Seq<char>, later: Seq<char>)
    ensures
        ({
            let (next, sent) = after_chunk(s, now);
            &&& sent.len() > 0 ==> {
                &&& s.subscribed
                &&& s.facts.firmware is Some
                &&& !s.seeded
                &&& next.seeded
            }
            &&& s.seeded ==> next.seeded && sent.len() == 0
            &&& next.seeded ==> after_chunk(next, later).1.len() == 0
        }),
{
}

/// Agreement: the seed that a device's own reading gives is the state that `serve` computes from
/// the same reading under the default calibration and battery curve, with no estimate yet and
/// the pump-out at the time of the reading.
pub proof fn law_seed_agrees_with_serve(
    r: ReadingView,
    now: Seq<char>,
    statics: state::StaticsView,
    lst_read: Seq<char>,
)
    ensures
        ({
            let seed = seed_of_reading(r, now);
            let served = state::computed(
                r.level_cm,
                r.battery_mv as int,
                calibration::default_calibration(),
                battery::default_points(),
                statics,
                lst_read,
            );
            &&& seed.lvl == served.lvl
            &&& seed.lvl == r.level_cm
            &&& seed.pct == served.pct
            &&& seed.bat == served.bat
            &&& seed.lvl_to_full == served.lvl_to_full
            &&& seed.days_left == 0
            &&& seed.lst_empty == now
            &&& seed.from == "node-4"@
        }),
{
}

/// Battery of the seed: it is 0 at 3300 mV or less and 100 at 4200 mV or more, lies on the two
/// lines of the default curve in between, and never falls where the voltage does not.
pub proof fn law_seed_battery_follows_the_voltage(
    r: ReadingView,
    other: ReadingView,
    now: Seq<char>,
    later: Seq<char>,
)
    ensures
        ({
            let bat = seed_of_reading(r, now).bat as int;
            let mv = r.battery_mv as int;
            &&& mv <= 3300 ==> bat == 0
            &&& mv >= 4200 ==> bat == 100
            &&& 3300 <= mv <= 3770 ==> -470 < 2 * (470 * bat - 83 * (mv - 3300)) <= 470
            &&& 3770 <= mv <= 4200 ==> -430 < 2 * (430 * (bat - 83) - 17 * (mv - 3770)) <= 430
            &&& mv <= other.battery_mv ==> bat <= seed_of_reading(other, later).bat
        }),
{
    battery::law_default_curve(r.battery_mv as int, r.battery_mv as int);
    battery::law_default_curve_is_two_lines(r.battery_mv as int);
    if r.battery_mv <= other.battery_mv {
        battery::law_default_curve(r.battery_mv as int, other.battery_mv as int);
    }
}

/// Fullness of the seed: between 40 and 178 cm it is the percentage nearest to how much of the
/// way from 178 down to 40 cm the level has come; beyond them it is 100 and 0.
pub proof fn law_seed_fullness_follows_the_level(r: ReadingView, now: Seq<char>)
    ensures
        ({
            let pct = seed_of_reading(r, now).pct as int;
            let cm = decimal::one();
            let level = r.level_cm@;
            &&& level <= 40 * cm ==> pct == 100
            &&& level >= 178 * cm ==> pct == 0
            &&& 40 * cm <= level <= 178 * cm ==> -(138 * cm) <= 2 * (100 * (178 * cm - level) - 138
                * (pct * cm)) < 138 * cm
        }),
{
    let cal = calibration::default_calibration();
    let cm = decimal::one();
    let level = r.level_cm@;
    let pct = seed_of_reading(r, now).pct as int;
    calibration::law_default_distances();
    exact::law_powers_of_ten(32768);
    calibration::law_percent_is_the_nearest_share(cal.full_dist@, cal.empty_dist@, level);
    calibration::law_end_points(cal.full_dist@, cal.empty_dist@, level);
    assert(pct * (138 * cm) == 138 * (pct * cm)) by (nonlinear_arith);
}

/// Credentials: a CONNECT reveals the client id, the user name and the password, each for itself,
/// and what it does not say stays unknown.
pub proof fn law_connect_reveals_the_login(c: ConnectView)
    ensures
        ({
            let f = after_connect(no_facts(), c);
            &&& f.client_id == Some(c.client_id)
            &&& f.mqtt_user == c.username
            &&& f.mqtt_pass == c.password
            &&& f.firmware is None && f.sensor_id is None && f.sensor_name is None
            &&& f.radar_skip is None && f.radar_repeat is None && f.seed is None
            &&& !f.firmware_announced && !f.id_from_cloud && !f.name_from_cloud
                && !f.seed_from_cloud
        }),
{
}

/// Other ids: a client id that does not start with the firmware's prefix is the receiver id as it
/// stands.
pub proof fn law_other_client_ids_are_receiver_ids(c: ConnectView)
    requires
        c.username is None,
        !("CieczSensor"@.is_prefix_of(c.client_id)),
    ensures
        after_connect(no_facts(), c).receiver_id == Some(c.client_id),
{
}

/// Nothing known: at first nothing is known and nothing is settled.
pub proof fn law_nothing_is_known_at_first()
    ensures
        ({
            let f = no_facts();
            &&& f.receiver_id is None && f.client_id is None && f.mqtt_user is None
            &&& f.mqtt_pass is None && f.firmware is None && f.sensor_id is None
            &&& f.sensor_name is None && f.radar_skip is None && f.radar_repeat is None
            &&& f.seed is None && !f.firmware_announced && !f.id_from_cloud
            &&& !f.name_from_cloud && !f.seed_from_cloud
        }),
{
}

/// The device's publishes: a log line adds nothing but the firmware, a reading adds nothing but
/// the sensor's id, its name and the seed, and any other topic adds nothing.
pub proof fn law_device_publishes_by_topic(
    f: FactsView,
    topic: Seq<char>,
    payload: Seq<u8>,
    doc: Option<Json>,
    read: Option<PayloadView>,
    now: Seq<char>,
)
    ensures
        ({
            let after = after_device_publish(f, topic, payload, doc, read, now);
            let log = "/log"@.is_suffix_of(topic);
            let reading = !log && "/read"@.is_suffix_of(topic);
            &&& !log && !reading ==> after == f
            &&& log ==> after == (FactsView {
                firmware: after.firmware,
                firmware_announced: after.firmware_announced,
                ..f
            })
            &&& reading ==> after == (FactsView {
                sensor_id: after.sensor_id,
                sensor_name: after.sensor_name,
                seed: after.seed,
                ..f
            })
            &&& log && !f.firmware_announced ==> match firmware::logged_firmware(doc, payload) {
                Some(fw) => after.firmware == Some(fw) && after.firmware_announced,
                None => after == f,
            }
            &&& reading && server::reading_in(read) is None ==> after == f
            &&& reading ==> (server::reading_in(read) matches Some(r) ==> {
                &&& f.sensor_id is None ==> after.sensor_id == Some(r.sensor)
                &&& f.sensor_name is None ==> after.sensor_name == Some(r.sensor)
                &&& f.seed is None ==> after.seed == Some(seed_of_reading(r, now))
            })
        }),
{
}

/// The cloud's publishes: a version adds nothing but the firmware, where none is known; a state
/// and radar parameters are read as documents; and any other topic adds nothing.
pub proof fn law_cloud_publishes_by_topic(
    f: FactsView,
    topic: Seq<char>,
    payload: Seq<u8>,
    doc: Option<Json>,
)
    ensures
        ({
            let after = after_cloud_publish(f, topic, payload, doc);
            let version = "/version/"@.is_prefix_of(topic);
            let state = !version && "/state"@.is_suffix_of(topic);
            let radar = !version && !state && "/radarParams"@.is_suffix_of(topic);
            &&& !version && !state && !radar ==> after == f
            &&& doc is None && !version ==> after == f
            &&& version ==> after == (FactsView { firmware: after.firmware, ..f })
            &&& version && f.firmware is Some ==> after == f
            &&& state ==> (doc matches Some(d) ==> after == after_state_document(f, d))
            &&& radar ==> (doc matches Some(d) ==> after == after_radar_document(f, d))
        }),
{
}

/// The cloud's version: where no firmware is known, the text of the payload without the white
/// space around it is the firmware, unless it is empty.
pub proof fn law_cloud_version_is_a_fallback(
    f: FactsView,
    topic: Seq<char>,
    pre: Seq<char>,
    fw: Seq<char>,
    post: Seq<char>,
    doc: Option<Json>,
)
    requires
        f.firmware is None,
        "/version/"@.is_prefix_of(topic),
        forall|i: int| 0 <= i < pre.len() ==> text::is_space(#[trigger] pre[i]),
        forall|i: int| 0 <= i < post.len() ==> text::is_space(#[trigger] post[i]),
        fw.len() > 0 ==> !text::is_space(fw[0]) && !text::is_space(fw.last()),
    ensures
        ({
            let payload = vstd::utf8::encode_utf8(pre + fw + post);
            let after = after_cloud_publish(f, topic, payload, doc);
            &&& fw.len() > 0 ==> after.firmware == Some(fw)
            &&& fw.len() == 0 ==> after.firmware is None
        }),
{
    let all = pre + fw + post;
    vstd::utf8::encode_utf8_valid_utf8(all);
    vstd::utf8::encode_utf8_decode_utf8(all);
    text::law_trimming_takes_white_space_off(pre, fw, post);
}

/// The cloud's state, field by field: the first sensor's values are the seed as they stand, zero
/// and empty where they are missing or of another kind, from `node-4` where no node is named.
pub proof fn law_cloud_state_is_taken_verbatim(f: FactsView, doc: Json, sensor: Json)
    requires
        !f.seed_from_cloud,
        doc.member("sensors"@) matches Some(sensors) && sensors.element(0) == Some(sensor),
    ensures
        ({
            let seed = after_state_document(f, doc).seed->0;
            &&& after_state_document(f, doc).seed is Some
            &&& sensor.member_integer("pct"@) matches Some(n) ==> seed.pct == n
            &&& sensor.member_integer("bat"@) matches Some(n) ==> seed.bat == n
            &&& sensor.member_integer("daysLeft"@) matches Some(n) ==> seed.days_left == n
            &&& sensor.member_integer("lvlToFull"@) matches Some(n) ==> seed.lvl_to_full == n
            &&& sensor.member_text("lstEmpty"@) matches Some(s) ==> seed.lst_empty == s
            &&& doc.member_text("from"@) matches Some(s) ==> seed.from == s
            &&& sensor.member_integer("pct"@) is None ==> seed.pct == 0
            &&& sensor.member_integer("bat"@) is None ==> seed.bat == 0
            &&& sensor.member_integer("daysLeft"@) is None ==> seed.days_left == 0
            &&& sensor.member_integer("lvlToFull"@) is None ==> seed.lvl_to_full == 0
            &&& sensor.member_text("lstEmpty"@) is None ==> seed.lst_empty.len() == 0
            &&& doc.member_text("from"@) is None ==> seed.from == "node-4"@
            &&& sensor.member("lvl"@) matches Some(v) ==> (v.number_text() matches Some(s) ==> (
            decimal::decimal_of(s) matches Some(d) ==> seed.lvl == d))
            &&& sensor.member("lvl"@) is None ==> seed.lvl@ == 0
            &&& sensor.member("lvl"@) matches Some(v) ==> (v.number_text() is None ==> seed.lvl@
                == 0)
        }),
{
    assert(0 * exact::ten_pow(32768) == 0) by (nonlinear_arith);
}

/// No state: a document without a first sensor adds nothing.
pub proof fn law_state_without_sensor_adds_nothing(f: FactsView, doc: Json)
    ensures
        doc.member("sensors"@) is None ==> after_state_document(f, doc) == f,
        doc.member("sensors"@) matches Some(sensors) ==> (sensors.element(0) is None
            ==> after_state_document(f, doc) == f),
{
}

/// The cloud's radar parameters: each of the three is taken for itself where it is not known yet,
/// the sensor only where it is not empty, and nothing else changes.
pub proof fn law_radar_parameters_fill_the_gaps(f: FactsView, doc: Json)
    ensures
        ({
            let after = after_radar_document(f, doc);
            &&& after == (FactsView {
                sensor_id: after.sensor_id,
                radar_skip: after.radar_skip,
                radar_repeat: after.radar_repeat,
                ..f
            })
            &&& kept(f.sensor_id, after.sensor_id) && kept(f.radar_skip, after.radar_skip) && kept(
                f.radar_repeat,
                after.radar_repeat,
            )
            &&& f.radar_skip is None ==> after.radar_skip == doc.member_integer("skip"@)
            &&& f.radar_repeat is None ==> after.radar_repeat == doc.member_integer("repeat"@)
            &&& f.sensor_id is None ==> (doc.member_text("sensor"@) matches Some(s) ==> (s.len() > 0
                ==> after.sensor_id == Some(s)) && (s.len() == 0 ==> after.sensor_id is None))
            &&& f.sensor_id is None && doc.member_text("sensor"@) is None ==> after.sensor_id is None
        }),
{
}

/// What is needed: facts are complete where the receiver id, both parts of the login, the
/// firmware, the sensor id and a seed are known, and each of these that is not known is named as
/// missing.
pub proof fn law_needed_facts(f: FactsView)
    ensures
        complete(f) <==> f.receiver_id is Some && f.mqtt_user is Some && f.mqtt_pass is Some
            && f.firmware is Some && f.sensor_id is Some && f.seed is Some,
        missing_names(f).contains("receiver_id"@) <==> f.receiver_id is None,
        missing_names(f).contains("mqtt_user"@) <==> f.mqtt_user is None,
        missing_names(f).contains("mqtt_pass"@) <==> f.mqtt_pass is None,
        missing_names(f).contains("firmware"@) <==> f.firmware is None,
        missing_names(f).contains("sensor_id"@) <==> f.sensor_id is None,
        missing_names(f).contains("state"@) <==> f.seed is None,
{
    reveal_strlit("receiver_id");
    reveal_strlit("mqtt_user");
    reveal_strlit("mqtt_pass");
    reveal_strlit("firmware");
    reveal_strlit("sensor_id");
    reveal_strlit("state");
    assert("receiver_id"@.len() == 11 && "mqtt_user"@.len() == 9 && "mqtt_pass"@.len() == 9);
    assert("firmware"@.len() == 8 && "sensor_id"@.len() == 9 && "state"@.len() == 5);
    assert("mqtt_user"@[5] == 'u' && "mqtt_pass"@[5] == 'p' && "sensor_id"@[5] == 'r');
    let a = name_if(f.receiver_id is None, "receiver_id"@);
    let b = name_if(f.mqtt_user is None, "mqtt_user"@);
    let c = name_if(f.mqtt_pass is None, "mqtt_pass"@);
    let d = name_if(f.firmware is None, "firmware"@);
    let e = name_if(f.sensor_id is None, "sensor_id"@);
    let g = name_if(f.seed is None, "state"@);
    let all = missing_names(f);
    assert(all =~= a + b + c + d + e + g);
    if f.receiver_id is None {
        assert(all[0] == "receiver_id"@);
    }
    if f.mqtt_user is None {
        assert(all[(a.len()) as int] == "mqtt_user"@);
    }
    if f.mqtt_pass is None {
        assert(all[(a.len() + b.len()) as int] == "mqtt_pass"@);
    }
    if f.firmware is None {
        assert(all[(a.len() + b.len() + c.len()) as int] == "firmware"@);
    }
    if f.sensor_id is None {
        assert(all[(a.len() + b.len() + c.len() + d.len()) as int] == "sensor_id"@);
    }
    if f.seed is None {
        assert(all[(a.len() + b.len() + c.len() + d.len() + e.len()) as int] == "state"@);
    }
    assert forall|i: int| 0 <= i < all.len() implies ({
        let name = #[trigger] all[i];
        ||| f.receiver_id is None && name == "receiver_id"@
        ||| f.mqtt_user is None && name == "mqtt_user"@
        ||| f.mqtt_pass is None && name == "mqtt_pass"@
        ||| f.firmware is None && name == "firmware"@
        ||| f.sensor_id is None && name == "sensor_id"@
        ||| f.seed is None && name == "state"@
    }) by {}
}

/// The initial state: it holds the recovered seed under the recovered identity, read when it is
/// written, with no history and the default calibration.
pub proof fn law_initial_state_is_the_seed(f: FactsView, now: Seq<char>)
    requires
        complete(f),
    ensures
        ({
            let p = initial_state_of(f, now);
            let s = p.last_state->0;
            let seed = f.seed->0;
            &&& p.history == Seq::<crate::history::RecordView>::empty()
            &&& p.lst_empty == seed.lst_empty
            &&& p.last_state is Some
            &&& p.calibration.full_dist@ == 40 * decimal::one()
            &&& p.calibration.empty_dist@ == 178 * decimal::one()
            &&& s.id == f.sensor_id->0
            &&& f.sensor_name matches Some(name) ==> s.name == name
            &&& f.sensor_name is None ==> s.name == f.sensor_id->0
            &&& s.lvl == seed.lvl && s.pct == seed.pct && s.bat == seed.bat
            &&& s.days_left == seed.days_left && s.lvl_to_full == seed.lvl_to_full
            &&& s.lst_read == now && s.lst_empty == seed.lst_empty && s.from == seed.from
        }),
{
    calibration::law_default_distances();
}

/// Answers in `observe`: a CONNECT is accepted, a SUBSCRIBE is granted topic by topic, a PUBLISH
/// that carries a packet id is acknowledged with it before anything else is done, a ping is
/// answered, a DISCONNECT closes the connection, and anything else is left alone.
pub proof fn law_every_packet_gets_its_answer(
    s: ObserveView,
    pkt: PacketView,
    read: Option<PayloadView>,
    now: Seq<char>,
)
    ensures
        ({
            let (next, done) = after_packet(s, pkt, read, now);
            &&& next.facts == after_device_packet(s.facts, pkt, read, now)
            &&& next.seeded == s.seeded
            &&& next.subscribed == (s.subscribed || pkt is Subscribe)
            &&& pkt is Connect ==> done == seq![
                ReplyView::Send(seq![0x20u8, 0x02u8, 0x00u8, 0x00u8]),
            ]
            &&& pkt matches PacketView::Subscribe(sub) ==> done == seq![
                ReplyView::Send(mqtt_wire::suback_packet(sub.packet_id, sub.topics.len())),
            ]
            &&& pkt matches PacketView::Publish(p) ==> (p.packet_id is None ==> done == seq![
                ReplyView::Finalize,
            ])
            &&& pkt matches PacketView::Publish(p) ==> (p.packet_id matches Some(id) ==> done
                == seq![
                ReplyView::Send(
                    seq![0x40u8, 0x02u8, (id / 256) as u8, (id % 256) as u8],
                ),
                ReplyView::Finalize,
            ])
            &&& pkt is PingReq ==> done == seq![ReplyView::Send(seq![0xd0u8, 0x00u8])]
            &&& pkt is Disconnect ==> done == seq![ReplyView::Close]
            &&& pkt is Other ==> done.len() == 0
        }),
{
    if let PacketView::Publish(p) = pkt {
        if let Some(id) = p.packet_id {
            mqtt_wire::law_acknowledgements_carry_the_packet_id(id, 0);
        }
    }
}

/// Packets and facts: a CONNECT and a PUBLISH of the device reveal what they hold, a PUBLISH of
/// the cloud does too, and no other packet reveals anything.
pub proof fn law_packets_reveal_their_contents(
    f: FactsView,
    pkt: PacketView,
    read: Option<PayloadView>,
    now: Seq<char>,
)
    ensures
        pkt matches PacketView::Connect(c) ==> after_device_packet(f, pkt, read, now)
            == after_connect(f, c) && after_cloud_packet(f, pkt) == f,
        pkt matches PacketView::Publish(p) ==> {
            &&& after_device_packet(f, pkt, read, now) == after_device_publish(
                f,
                p.topic,
                p.payload,
                json::json_document(p.payload),
                read,
                now,
            )
            &&& after_cloud_packet(f, pkt) == after_cloud_publish(
                f,
                p.topic,
                p.payload,
                json::json_document(p.payload),
            )
        },
        !(pkt is Connect) && !(pkt is Publish) ==> after_device_packet(f, pkt, read, now) == f
            && after_cloud_packet(f, pkt) == f,
{
}

/// Seeding in `observe`: as soon as the device has subscribed and its receiver id and firmware are
/// known it is sent, once, its own firmware, the default radar parameters and a neutral state,
/// each retained on its topic; the sensor id stands in them where it is known, and otherwise the
/// receiver id.
pub proof fn law_seeding_echoes_the_device(s: ObserveView, now: Seq<char>, rid: Seq<char>, fw: Seq<char>)
    requires
        s.subscribed && !s.seeded,
        s.facts.receiver_id == Some(rid),
        s.facts.firmware == Some(fw),
    ensures
        ({
            let (next, sent) = after_chunk(s, now);
            let sensor = match s.facts.sensor_id {
                Some(id) => id,
                None => rid,
            };
            &&& next == (ObserveView { seeded: true, ..s })
            &&& sent == seq![
                mqtt_wire::publish_packet(
                    "/version/czujnik_szamba/"@ + rid,
                    vstd::utf8::encode_utf8(fw),
                    true,
                ),
                mqtt_wire::publish_packet(
                    "/users/"@ + rid + "/receivers/"@ + rid + "/radarParams"@,
                    json::json_encoding(server::radar_json(sensor, 9, 9)),
                    true,
                ),
                mqtt_wire::publish_packet(
                    "/users/"@ + rid + "/state"@,
                    json::json_encoding(state::state_json(placeholder_state(sensor, now))),
                    true,
                ),
            ]
        }),
{
}

/// The neutral state: it names the sensor and the time, and otherwise is the documented seed of
/// 150.2 cm, 20 percent full, 83 percent of battery and 110 cm to full, never emptied.
pub proof fn law_neutral_state_is_the_documented_seed(sensor: Seq<char>, now: Seq<char>)
    ensures
        ({
            let s = placeholder_state(sensor, now);
            &&& s.id == sensor && s.name == sensor && s.lst_read == now
            &&& s.lvl@ * 10 == 1502 * decimal::one()
            &&& s.pct == 20 && s.bat == 83 && s.days_left == 0 && s.lvl_to_full == 110
            &&& s.lst_empty.len() == 0 && s.from == "node-4"@
        }),
{
    decimal::law_fraction_value(1502, 1);
    reveal_with_fuel(exact::ten_pow, 2);
}

/// Contents: what facts, a seed and a session are said to hold is what their fields hold.
pub proof fn law_facts_show_their_fields(f: Facts, s: Seed, o: ObserveSession, bytes: Vec<u8>)
    ensures
        f@.receiver_id == text::optional_text(f.receiver_id),
        f@.client_id == text::optional_text(f.client_id),
        f@.mqtt_user == text::optional_text(f.mqtt_user),
        f@.mqtt_pass == text::optional_text(f.mqtt_pass),
        f@.firmware == text::optional_text(f.firmware),
        f@.sensor_id == text::optional_text(f.sensor_id),
        f@.sensor_name == text::optional_text(f.sensor_name),
        f@.radar_skip == f.radar_skip && f@.radar_repeat == f.radar_repeat,
        f.seed matches Some(seed) ==> f@.seed == Some(seed@),
        f.seed is None ==> f@.seed is None,
        f@.firmware_announced == f.firmware_announced && f@.id_from_cloud == f.id_from_cloud,
        f@.name_from_cloud == f.name_from_cloud && f@.seed_from_cloud == f.seed_from_cloud,
        s@.lvl == s.lvl && s@.pct == s.pct && s@.bat == s.bat && s@.days_left == s.days_left,
        s@.lvl_to_full == s.lvl_to_full && s@.lst_empty == s.lst_empty@ && s@.from == s.from@,
        o@.facts == o.facts@ && o@.subscribed == o.subscribed && o@.seeded == o.seeded,
        Reply::Send(bytes)@ == ReplyView::Send(bytes@),
        Reply::Finalize@ == ReplyView::Finalize,
        Reply::Close@ == ReplyView::Close,
{
}

/// Gaps in the cloud's state: an id or a name that it leaves out stays as it was and is still to
/// be heard, so that a later state supplies it; the first one that it names is final.
pub proof fn law_gaps_in_the_cloud_state_stay_open(f: FactsView, doc: Json, sensor: Json)
    requires
        doc.member("sensors"@) matches Some(sensors) && sensors.element(0) == Some(sensor),
    ensures
        ({
            let after = after_state_document(f, doc);
            &&& sensor.member_text("id"@) is None ==> after.sensor_id == f.sensor_id
                && after.id_from_cloud == f.id_from_cloud
            &&& sensor.member_text("name"@) is None ==> after.sensor_name == f.sensor_name
                && after.name_from_cloud == f.name_from_cloud
            &&& sensor.member_text("id"@) is Some ==> after.id_from_cloud
            &&& sensor.member_text("name"@) is Some ==> after.name_from_cloud
            &&& after.seed_from_cloud
            &&& after == (FactsView {
                sensor_id: after.sensor_id,
                sensor_name: after.sensor_name,
                seed: after.seed,
                id_from_cloud: after.id_from_cloud,
                name_from_cloud: after.name_from_cloud,
                seed_from_cloud: true,
                ..f
            })
        }),
{
}

/// Order: what is missing is named in a fixed order, the receiver id first, then the user name,
/// the password, the firmware, the sensor id and the state.
pub proof fn law_missing_facts_are_named_in_order(f: FactsView, text: Seq<char>)
    ensures
        f.receiver_id is None ==> missing_names(f) == seq!["receiver_id"@] + missing_names(
            FactsView { receiver_id: Some(text), ..f },
        ),
        f.receiver_id is Some && f.mqtt_user is None ==> missing_names(f) == seq!["mqtt_user"@]
            + missing_names(FactsView { mqtt_user: Some(text), ..f }),
        f.receiver_id is Some && f.mqtt_user is Some && f.mqtt_pass is None ==> missing_names(f)
            == seq!["mqtt_pass"@] + missing_names(FactsView { mqtt_pass: Some(text), ..f }),
        f.receiver_id is Some && f.mqtt_user is Some && f.mqtt_pass is Some && f.firmware is None
            ==> missing_names(f) == seq!["firmware"@] + missing_names(
            FactsView { firmware: Some(text), ..f },
        ),
        f.receiver_id is Some && f.mqtt_user is Some && f.mqtt_pass is Some && f.firmware is Some
            && f.sensor_id is None ==> missing_names(f) == seq!["sensor_id"@] + missing_names(
            FactsView { sensor_id: Some(text), ..f },
        ),
        f.receiver_id is Some && f.mqtt_user is Some && f.mqtt_pass is Some && f.firmware is Some
            && f.sensor_id is Some && f.seed is None ==> missing_names(f) == seq!["state"@],
        complete(f) ==> missing_names(f).len() == 0,
{
    assert(f.receiver_id is None ==> missing_names(f) =~= seq!["receiver_id"@] + missing_names(
        FactsView { receiver_id: Some(text), ..f },
    ));
    assert(f.receiver_id is Some && f.mqtt_user is None ==> missing_names(f) =~= seq!["mqtt_user"@]
        + missing_names(FactsView { mqtt_user: Some(text), ..f }));
    assert(f.receiver_id is Some && f.mqtt_user is Some && f.mqtt_pass is None ==> missing_names(f)
        =~= seq!["mqtt_pass"@] + missing_names(FactsView { mqtt_pass: Some(text), ..f }));
    assert(f.receiver_id is Some && f.mqtt_user is Some && f.mqtt_pass is Some && f.firmware is None
        ==> missing_names(f) =~= seq!["firmware"@] + missing_names(
        FactsView { firmware: Some(text), ..f },
    ));
    assert(f.receiver_id is Some && f.mqtt_user is Some && f.mqtt_pass is Some && f.firmware is Some
        && f.sensor_id is None ==> missing_names(f) =~= seq!["sensor_id"@] + missing_names(
        FactsView { sensor_id: Some(text), ..f },
    ));
    assert(f.receiver_id is Some && f.mqtt_user is Some && f.mqtt_pass is Some && f.firmware is Some
        && f.sensor_id is Some && f.seed is None ==> missing_names(f) =~= seq!["state"@]);
}

/// Later CONNECTs: each part of the login that is not known yet is filled in, whatever else is
/// known, and nothing but the login and the receiver id changes.
pub proof fn law_connect_fills_the_gaps(f: FactsView, c: ConnectView, rid: Seq<char>)
    ensures
        ({
            let after = after_connect(f, c);
            &&& after == (FactsView {
                client_id: after.client_id,
                mqtt_user: after.mqtt_user,
                mqtt_pass: after.mqtt_pass,
                receiver_id: after.receiver_id,
                ..f
            })
            &&& f.client_id is None ==> after.client_id == Some(c.client_id)
            &&& f.mqtt_user is None ==> after.mqtt_user == c.username
            &&& f.mqtt_pass is None ==> after.mqtt_pass == c.password
            &&& f.receiver_id is None && c.username is Some ==> after.receiver_id == c.username
            &&& f.receiver_id is None && c.username is None && c.client_id == "CieczSensor"@ + rid
                ==> after.receiver_id == Some(rid)
            &&& f.receiver_id is None && c.username is None && !"CieczSensor"@.is_prefix_of(
                c.client_id,
            ) ==> after.receiver_id == Some(c.client_id)
            &&& kept(f.client_id, after.client_id) && kept(f.mqtt_user, after.mqtt_user)
            &&& kept(f.mqtt_pass, after.mqtt_pass) && kept(f.receiver_id, after.receiver_id)
        }),
{
    let id = "CieczSensor"@ + rid;
    let n = "CieczSensor"@.len() as int;
    assert(id.subrange(0, n) =~= "CieczSensor"@);
    assert(id.skip(n) =~= rid);
}

/// Not yet: before the device has subscribed, while its receiver id or its firmware is unknown,
/// and after it was seeded, nothing is sent and nothing changes.
pub proof fn law_nothing_is_sent_too_early(s: ObserveView, now: Seq<char>)
    requires
        !s.subscribed || s.seeded || s.facts.receiver_id is None || s.facts.firmware is None,
    ensures
        after_chunk(s, now) == (s, Seq::<Seq<u8>>::empty()),
{
}

} // verus!
