//! The `serve` logic: what to publish on connect and how each message from the device changes
//! the state, the store and what is published.
//!
//! Nothing here talks to a broker or reads a clock. [`Session::start`] and
//! [`Session::on_event`] say what is to be done, and the caller does it.

use serde_json::Value;
use vstd::prelude::*;
use vstd::slice::slice_to_vec;
use vstd::string::StringExecFns;

use crate::battery;
use crate::battery::BatteryCurve;
use crate::broker;
use crate::calibration;
use crate::config::Config;
use crate::decimal;
use crate::firmware;
use crate::history;
use crate::history::{ReadingRecord, RecordView};
use crate::json;
use crate::json::Json;
use crate::reading;
use crate::reading::{ReadError, ReadPayload, Reading, ReadingView};
use crate::state;
use crate::state::{SensorState, StateView, StaticFields, StaticsView};
use crate::store::{PersistedState, PersistedView};
use crate::text;
use crate::topics;
use crate::topics::{Topics, TopicsView};

verus! {

/// Where and how the `serve` client connects.
pub struct BrokerConn {
    pub host: String,
    pub port: u16,
    pub user: String,
    pub pass: String,
    /// Whether the broker is the embedded one, which has to be started first.
    pub embedded: bool,
}

/// Chooses the broker: the configured external one, else the embedded one on loopback.
pub fn broker_conn(cfg: &Config) -> (c: BrokerConn)
    ensures
        match cfg.broker {
            Some(b) => {
                &&& c.host@ == b.host@
                &&& c.port == b.port
                &&& c.user@ == b.username@
                &&& c.pass@ == b.password@
                &&& !c.embedded
            },
            None => {
                &&& c.host@ == "127.0.0.1"@
                &&& c.port == cfg.listen_port
                &&& c.user@ == broker::INTERNAL_USER@
                &&& c.pass@ == broker::INTERNAL_PASS@
                &&& c.embedded
            },
        },
{
    match &cfg.broker {
        Some(b) => BrokerConn {
            host: b.host.clone(),
            port: b.port,
            user: b.username.clone(),
            pass: b.password.clone(),
            embedded: false,
        },
        None => BrokerConn {
            host: "127.0.0.1".to_owned(),
            port: cfg.listen_port,
            user: broker::INTERNAL_USER.to_owned(),
            pass: broker::INTERNAL_PASS.to_owned(),
            embedded: true,
        },
    }
}

/// The id that the `serve` client connects with.
pub fn client_id(cfg: &Config) -> (s: String)
    ensures
        s@ == "aquilo-server-"@ + cfg.receiver_id@,
{
    let mut s: String = "aquilo-server-".to_owned();
    s.append(cfg.receiver_id.as_str());
    s
}

/// How surely a message is to be delivered.
#[derive(Clone, Copy, Debug, PartialEq, Eq, Structural)]
pub enum Qos {
    AtMostOnce,
    AtLeastOnce,
}

/// A message to publish.
#[derive(Clone, Debug, PartialEq)]
pub struct Outgoing {
    pub topic: String,
    pub payload: Vec<u8>,
    pub qos: Qos,
    pub retain: bool,
}

/// What an [`Outgoing`] message holds.
pub struct OutgoingView {
    pub topic: Seq<char>,
    pub payload: Seq<u8>,
    pub qos: Qos,
    pub retain: bool,
}

impl View for Outgoing {
    type V = OutgoingView;

    open spec fn view(&self) -> OutgoingView {
        OutgoingView {
            topic: self.topic@,
            payload: self.payload@,
            qos: self.qos,
            retain: self.retain,
        }
    }
}

/// The retained message on a topic.
pub open spec fn retained(topic: Seq<char>, payload: Seq<u8>) -> OutgoingView {
    OutgoingView { topic, payload, qos: Qos::AtLeastOnce, retain: true }
}

/// The keepalive message.
pub fn ping_message(topics: &Topics) -> (m: Outgoing)
    ensures
        m@ == (OutgoingView {
            topic: topics.ping@,
            payload: vstd::utf8::encode_utf8("ping"@),
            qos: Qos::AtMostOnce,
            retain: false,
        }),
{
    Outgoing {
        topic: topics.ping.clone(),
        payload: slice_to_vec("ping".as_bytes()),
        qos: Qos::AtMostOnce,
        retain: false,
    }
}

/// The radar parameters of a sensor node.
pub open spec fn radar_json(sensor: Seq<char>, skip: int, repeat: int) -> Json {
    Json::Object(
        Map::empty().insert("sensor"@, Json::Text(sensor)).insert(
            "skip"@,
            Json::Integer(skip),
        ).insert("repeat"@, Json::Integer(repeat)),
    )
}

/// Builds the radar parameters of a sensor node.
pub fn radar_params(sensor: &str, skip: i64, repeat: i64) -> (v: Value)
    ensures
        json::json_tree(v) == radar_json(sensor@, skip as int, repeat as int),
{
    let mut v: Value = json::object_value();
    json::set_member(&mut v, "sensor", json::text_value(sensor));
    json::set_member(&mut v, "skip", json::integer_value(skip));
    json::set_member(&mut v, "repeat", json::integer_value(repeat));
    v
}

/// The retained `/state` message for a state.
pub open spec fn state_message(topic: Seq<char>, s: StateView) -> OutgoingView {
    retained(topic, json::json_encoding(state::state_json(s)))
}

/// Builds the retained `/state` message. A JSON reader gets the document back from its bytes.
pub fn publish_state(state_topic: &str, state: &SensorState) -> (m: Outgoing)
    ensures
        m@ == state_message(state_topic@, state@),
        json::json_document(m.payload@) == Some(state::state_json(state@)),
{
    proof {
        state::law_state_is_readable(state@);
    }
    Outgoing {
        topic: state_topic.to_owned(),
        payload: json::encode(&state.to_json()),
        qos: Qos::AtLeastOnce,
        retain: true,
    }
}

/// The three retained messages that the device needs on connect: the firmware version, so
/// that no update is triggered, the radar parameters and the state.
pub open spec fn connect_messages(cfg: Config, topics: TopicsView, s: StateView) -> Seq<
    OutgoingView,
> {
    seq![
        retained(topics.version, vstd::utf8::encode_utf8(cfg.firmware_version@)),
        retained(
            topics.radar_params,
            json::json_encoding(
                radar_json(cfg.sensor_id@, cfg.radar_skip as int, cfg.radar_repeat as int),
            ),
        ),
        state_message(topics.state, s),
    ]
}

/// What messages hold.
pub open spec fn messages(list: Seq<Outgoing>) -> Seq<OutgoingView> {
    list.map_values(|m: Outgoing| m@)
}

/// Builds the three retained messages that the device needs on connect. A JSON reader gets
/// the radar parameters and the state back from their bytes.
pub fn seed_retained(cfg: &Config, topics: &Topics, state: &SensorState) -> (out: Vec<Outgoing>)
    ensures
        messages(out@) == connect_messages(*cfg, topics@, state@),
        json::json_document(out@[1].payload@) == Some(
            radar_json(cfg.sensor_id@, cfg.radar_skip as int, cfg.radar_repeat as int),
        ),
        json::json_document(out@[2].payload@) == Some(state::state_json(state@)),
{
    let mut out: Vec<Outgoing> = Vec::new();
    out.push(
        Outgoing {
            topic: topics.version.clone(),
            payload: slice_to_vec(cfg.firmware_version.as_str().as_bytes()),
            qos: Qos::AtLeastOnce,
            retain: true,
        },
    );
    let radar: Value = radar_params(cfg.sensor_id.as_str(), cfg.radar_skip, cfg.radar_repeat);
    proof {
        law_radar_params_are_readable(cfg.sensor_id@, cfg.radar_skip, cfg.radar_repeat);
    }
    out.push(
        Outgoing {
            topic: topics.radar_params.clone(),
            payload: json::encode(&radar),
            qos: Qos::AtLeastOnce,
            retain: true,
        },
    );
    out.push(publish_state(topics.state.as_str(), state));
    assert(messages(out@) =~= connect_messages(*cfg, topics@, state@));
    out
}

/// The evolving server state.
pub struct Runtime {
    /// The current `/state`.
    pub current: SensorState,
    /// Rolling reading history.
    pub history: Vec<ReadingRecord>,
    /// Last pump-out (RFC 3339).
    pub lst_empty: String,
}

/// What a [`Runtime`] holds.
pub struct RuntimeView {
    pub current: StateView,
    pub history: Seq<RecordView>,
    pub lst_empty: Seq<char>,
}

impl View for Runtime {
    type V = RuntimeView;

    open spec fn view(&self) -> RuntimeView {
        RuntimeView {
            current: self.current@,
            history: history::records(self.history@),
            lst_empty: self.lst_empty@,
        }
    }
}

/// What came of loading the store.
pub enum Loaded {
    /// A state was stored.
    Found(PersistedState),
    /// Nothing was stored yet.
    Missing,
    /// What was stored cannot be read.
    Unreadable,
}

/// The runtime of a first run.
pub open spec fn seeded_runtime(cfg: Config, now: Seq<char>) -> RuntimeView {
    RuntimeView {
        current: state::seeded(cfg, now),
        history: Seq::empty(),
        lst_empty: cfg.state.lst_empty@,
    }
}

/// The runtime after a restart: the last state verbatim and the history, with the
/// configured seed for what was not stored.
pub open spec fn restored_runtime(cfg: Config, p: PersistedView, now: Seq<char>) -> RuntimeView {
    RuntimeView {
        current: match p.last_state {
            Some(s) => s,
            None => state::seeded(cfg, now),
        },
        history: p.history,
        lst_empty: if p.lst_empty.len() == 0 {
            cfg.state.lst_empty@
        } else {
            p.lst_empty
        },
    }
}

/// The runtime to start with.
pub open spec fn initial_runtime(cfg: Config, loaded: Loaded, now: Seq<char>) -> RuntimeView {
    match loaded {
        Loaded::Found(p) => restored_runtime(cfg, p@, now),
        _ => seeded_runtime(cfg, now),
    }
}

/// Builds the runtime of a first run.
pub fn seed_runtime(cfg: &Config, now: String) -> (rt: Runtime)
    ensures
        rt@ == seeded_runtime(*cfg, now@),
{
    let rt = Runtime {
        current: SensorState::seed(cfg, now),
        history: Vec::new(),
        lst_empty: cfg.state.lst_empty.clone(),
    };
    assert(rt@.history =~= Seq::empty());
    rt
}

/// Builds the runtime to start with from what came of loading the store.
pub fn load_runtime(cfg: &Config, loaded: Loaded, now: String) -> (rt: Runtime)
    ensures
        rt@ == initial_runtime(*cfg, loaded, now@),
{
    match loaded {
        Loaded::Found(p) => {
            let lst_empty: String = if p.lst_empty.as_str().is_empty() {
                cfg.state.lst_empty.clone()
            } else {
                p.lst_empty
            };
            let current: SensorState = match p.last_state {
                Some(s) => s,
                None => SensorState::seed(cfg, now),
            };
            Runtime { current, history: p.history, lst_empty }
        },
        Loaded::Missing => seed_runtime(cfg, now),
        Loaded::Unreadable => seed_runtime(cfg, now),
    }
}

/// The snapshot of a runtime that is persisted.
pub open spec fn snapshot_of(cfg: Config, rt: RuntimeView) -> PersistedView {
    PersistedView {
        history: rt.history,
        lst_empty: rt.lst_empty,
        last_state: Some(rt.current),
        calibration: cfg.calibration,
    }
}

/// Takes the snapshot of a runtime that is to be persisted.
pub fn snapshot(cfg: &Config, rt: &Runtime) -> (p: PersistedState)
    ensures
        p@ == snapshot_of(*cfg, rt@),
{
    let history: Vec<ReadingRecord> = history::copied_from(&rt.history, 0);
    assert(history::records(rt.history@).skip(0) =~= history::records(rt.history@));
    PersistedState {
        history,
        lst_empty: rt.lst_empty.clone(),
        last_state: Some(rt.current.copied()),
        calibration: cfg.calibration,
    }
}

/// Identity that is carried into every computed state.
pub open spec fn statics_of(cfg: Config, lst_empty: Seq<char>, days_left: i64) -> StaticsView {
    StaticsView {
        sensor_id: cfg.sensor_id@,
        name: cfg.sensor_name@,
        lst_empty,
        days_left,
        from: cfg.state.from@,
    }
}

/// Collects the fields that do not derive from a single reading.
pub fn statics(cfg: &Config, lst_empty: String, days_left: i64) -> (s: StaticFields)
    ensures
        s@ == statics_of(*cfg, lst_empty@, days_left),
{
    StaticFields {
        sensor_id: cfg.sensor_id.clone(),
        name: cfg.sensor_name.clone(),
        lst_empty,
        days_left,
        from: cfg.state.from.clone(),
    }
}

/// The newest `n` records of a history.
pub open spec fn newest(history: Seq<RecordView>, n: nat) -> Seq<RecordView> {
    if history.len() > n {
        history.skip(history.len() - n)
    } else {
        history
    }
}

/// The history after one more reading: the record is appended and the oldest are dropped
/// past the cap.
pub open spec fn history_after(
    cfg: Config,
    curve: Seq<(i64, i64)>,
    history: Seq<RecordView>,
    r: ReadingView,
    now: Seq<char>,
) -> Seq<RecordView> {
    newest(
        history.push(
            RecordView {
                ts: now,
                lvl: r.level_cm,
                bat: battery::percent_at(curve, r.battery_mv as int) as i64,
            },
        ),
        cfg.history_max_len as nat,
    )
}

/// The last pump-out after one more reading: now, where the fullness fell far enough.
pub open spec fn lst_empty_after(
    cfg: Config,
    rt: RuntimeView,
    r: ReadingView,
    now: Seq<char>,
) -> Seq<char> {
    let new_pct = calibration::fill_percent(
        cfg.calibration.full_dist@,
        cfg.calibration.empty_dist@,
        r.level_cm@,
    );
    if history::pumped_out(rt.current.pct as int, new_pct, cfg.pump_out_drop_pct as int) {
        now
    } else {
        rt.lst_empty
    }
}

/// The runtime after one more reading.
pub open spec fn after_reading(
    cfg: Config,
    curve: Seq<(i64, i64)>,
    rt: RuntimeView,
    r: ReadingView,
    now: Seq<char>,
) -> RuntimeView {
    let history = history_after(cfg, curve, rt.history, r, now);
    let lst_empty = lst_empty_after(cfg, rt, r, now);
    let days_left = match history::projected(history, cfg.calibration.full_dist@) {
        Some(days) => days,
        None => rt.current.days_left,
    };
    RuntimeView {
        current: state::computed(
            r.level_cm,
            r.battery_mv as int,
            cfg.calibration,
            curve,
            statics_of(cfg, lst_empty, days_left),
            now,
        ),
        history,
        lst_empty,
    }
}

impl Runtime {
    /// Folds a reading in: detects a pump-out, appends to the history and trims it,
    /// projects the days left, keeping the prior estimate where there is none, and
    /// recomputes the state.
    pub fn apply_reading(
        &mut self,
        cfg: &Config,
        battery: &BatteryCurve,
        reading: &Reading,
        now: String,
    )
        requires
            battery@.len() > 0,
        ensures
            final(self)@ == after_reading(*cfg, battery@, old(self)@, reading@, now@),
    {
        let bat: i64 = battery.percent(reading.battery_mv);
        let new_pct: i64 = cfg.calibration.pct(reading.level_cm);
        if history::is_pump_out(self.current.pct, new_pct, cfg.pump_out_drop_pct) {
            self.lst_empty = now.clone();
        }
        let ghost before = history::records(self.history@);
        self.history.push(ReadingRecord { ts: now.clone(), lvl: reading.level_cm, bat });
        assert(history::records(self.history@) =~= before.push(
            RecordView { ts: now@, lvl: reading.level_cm, bat },
        ));
        let n: usize = self.history.len();
        if n > cfg.history_max_len {
            self.history = history::copied_from(&self.history, n - cfg.history_max_len);
        }
        let days_left: i64 = match history::days_left(
            self.history.as_slice(),
            cfg.calibration.full_dist,
        ) {
            Some(days) => days,
            None => self.current.days_left,
        };
        let fields: StaticFields = statics(cfg, self.lst_empty.clone(), days_left);
        self.current = SensorState::compute(reading, &cfg.calibration, battery, &fields, now);
    }
}

/// Something for the caller to do.
pub enum Action {
    /// Save a snapshot. A failure is logged and does no harm.
    Persist(PersistedState),
    /// Publish a message.
    Publish(Outgoing),
    /// Subscribe to a topic, delivered at most once.
    Subscribe(String),
    /// Wait this many seconds before going on.
    Wait(u64),
    /// Warn that a reading was not understood, and why.
    Rejected(ReadError),
}

/// What an [`Action`] holds.
pub enum ActionView {
    Persist(PersistedView),
    Publish(OutgoingView),
    Subscribe(Seq<char>),
    Wait(u64),
    Rejected(ReadError),
}

impl View for Action {
    type V = ActionView;

    open spec fn view(&self) -> ActionView {
        match self {
            Action::Persist(p) => ActionView::Persist(p@),
            Action::Publish(m) => ActionView::Publish(m@),
            Action::Subscribe(t) => ActionView::Subscribe(t@),
            Action::Wait(n) => ActionView::Wait(*n),
            Action::Rejected(e) => ActionView::Rejected(*e),
        }
    }
}

/// What a list of actions holds.
pub open spec fn actions(list: Seq<Action>) -> Seq<ActionView> {
    list.map_values(|a: Action| a@)
}

/// A message from the device.
pub struct Incoming {
    pub topic: String,
    pub payload: Vec<u8>,
    /// The payload as the fields of a `/read`, where it is a JSON object that has them.
    pub read: Option<ReadPayload>,
    /// When it was received (RFC 3339).
    pub now: String,
}

/// What an [`Incoming`] message holds.
pub struct IncomingView {
    pub topic: Seq<char>,
    pub payload: Seq<u8>,
    pub read: Option<reading::PayloadView>,
    pub now: Seq<char>,
}

/// What an optional payload holds.
pub open spec fn optional_payload(p: Option<ReadPayload>) -> Option<reading::PayloadView> {
    match p {
        Some(p) => Some(p@),
        None => None,
    }
}

impl View for Incoming {
    type V = IncomingView;

    open spec fn view(&self) -> IncomingView {
        IncomingView {
            topic: self.topic@,
            payload: self.payload@,
            read: optional_payload(self.read),
            now: self.now@,
        }
    }
}

/// The reading in a message, where there is one.
pub open spec fn reading_in(read: Option<reading::PayloadView>) -> Option<ReadingView> {
    match read {
        Some(p) => match reading::reading_of(p) {
            Ok(r) => Some(r),
            Err(_) => None,
        },
        None => None,
    }
}

/// What is done where no reading was understood: a payload that has the fields of one is
/// reported with what is wrong with it.
pub open spec fn rejections(read: Option<reading::PayloadView>) -> Seq<ActionView> {
    match read {
        Some(p) => match reading::reading_of(p) {
            Ok(_) => Seq::empty(),
            Err(e) => seq![ActionView::Rejected(e)],
        },
        None => Seq::empty(),
    }
}

/// What is done with a reading: the new state is persisted, then published.
pub open spec fn read_actions(cfg: Config, topics: TopicsView, rt: RuntimeView) -> Seq<
    ActionView,
> {
    seq![
        ActionView::Persist(snapshot_of(cfg, rt)),
        ActionView::Publish(state_message(topics.state, rt.current)),
    ]
}

/// The runtime and the actions after a message: a reading is folded in, persisted and
/// republished, or reported where it was not understood; a firmware announcement is echoed,
/// retained; anything else is ignored.
pub open spec fn after_message(
    cfg: Config,
    topics: TopicsView,
    curve: Seq<(i64, i64)>,
    rt: RuntimeView,
    m: IncomingView,
) -> (RuntimeView, Seq<ActionView>) {
    if m.topic == topics.read {
        match reading_in(m.read) {
            Some(r) => {
                let next = after_reading(cfg, curve, rt, r, m.now);
                (next, read_actions(cfg, topics, next))
            },
            None => (rt, rejections(m.read)),
        }
    } else if m.topic == topics.log {
        match firmware::reported_firmware(json::json_document(m.payload), m.payload) {
            Some(fw) => (
                rt,
                seq![
                    ActionView::Publish(retained(topics.version, vstd::utf8::encode_utf8(fw))),
                ],
            ),
            None => (rt, Seq::empty()),
        }
    } else {
        (rt, Seq::empty())
    }
}

/// Folds a reading into the runtime, to be persisted and republished.
pub fn handle_read(
    cfg: &Config,
    topics: &Topics,
    battery: &BatteryCurve,
    rt: &mut Runtime,
    reading: &Reading,
    now: String,
) -> (out: Vec<Action>)
    requires
        battery@.len() > 0,
    ensures
        final(rt)@ == after_reading(*cfg, battery@, old(rt)@, reading@, now@),
        actions(out@) == read_actions(*cfg, topics@, final(rt)@),
{
    rt.apply_reading(cfg, battery, reading, now);
    let mut out: Vec<Action> = Vec::new();
    out.push(Action::Persist(snapshot(cfg, rt)));
    out.push(Action::Publish(publish_state(topics.state.as_str(), &rt.current)));
    assert(actions(out@) =~= read_actions(*cfg, topics@, rt@));
    out
}

/// Handles a message from the device.
pub fn handle_publish(
    cfg: &Config,
    topics: &Topics,
    battery: &BatteryCurve,
    rt: &mut Runtime,
    m: Incoming,
) -> (out: Vec<Action>)
    requires
        battery@.len() > 0,
    ensures
        (final(rt)@, actions(out@)) == after_message(*cfg, topics@, battery@, old(rt)@, m@),
{
    let mut out: Vec<Action> = Vec::new();
    assert(actions(out@) =~= Seq::empty());
    if text::same(m.topic.as_str(), topics.read.as_str()) {
        match &m.read {
            Some(payload) => match Reading::parse(payload) {
                Ok(reading) => handle_read(cfg, topics, battery, rt, &reading, m.now),
                Err(e) => {
                    out.push(Action::Rejected(e));
                    assert(actions(out@) =~= rejections(m@.read));
                    out
                },
            },
            None => out,
        }
    } else if text::same(m.topic.as_str(), topics.log.as_str()) {
        match firmware::parse_firmware(m.payload.as_slice()) {
            Some(fw) => {
                out.push(
                    Action::Publish(
                        Outgoing {
                            topic: topics.version.clone(),
                            payload: slice_to_vec(fw.as_str().as_bytes()),
                            qos: Qos::AtLeastOnce,
                            retain: true,
                        },
                    ),
                );
                assert(actions(out@) =~= seq![
                    ActionView::Publish(
                        retained(topics.version@, vstd::utf8::encode_utf8(fw@)),
                    ),
                ]);
                out
            },
            None => out,
        }
    } else {
        out
    }
}

/// What the MQTT client reports.
pub enum Event {
    /// The broker accepted the connection.
    Connected,
    /// A message came in.
    Message(Incoming),
    /// Something that needs no answer.
    Other,
    /// The connection failed; the client will try again.
    Failed,
}

/// A `serve` session.
pub struct Session {
    pub cfg: Config,
    pub topics: Topics,
    pub battery: BatteryCurve,
    pub runtime: Runtime,
}

/// What is done on connect: the retained messages, then the subscriptions.
pub open spec fn connect_actions(cfg: Config, topics: TopicsView, s: StateView) -> Seq<
    ActionView,
> {
    let m = connect_messages(cfg, topics, s);
    seq![
        ActionView::Publish(m[0]),
        ActionView::Publish(m[1]),
        ActionView::Publish(m[2]),
        ActionView::Subscribe(topics.read),
        ActionView::Subscribe(topics.log),
        ActionView::Subscribe(topics.connection),
    ]
}

/// The runtime and the actions after an event.
pub open spec fn after_event(
    cfg: Config,
    topics: TopicsView,
    curve: Seq<(i64, i64)>,
    rt: RuntimeView,
    e: Event,
) -> (RuntimeView, Seq<ActionView>) {
    match e {
        Event::Connected => (rt, connect_actions(cfg, topics, rt.current)),
        Event::Message(m) => after_message(cfg, topics, curve, rt, m@),
        Event::Other => (rt, Seq::empty()),
        Event::Failed => (rt, seq![ActionView::Wait(1)]),
    }
}

impl Session {
    /// Whether the topics and the battery curve are those of the session's configuration.
    pub open spec fn wf(self) -> bool {
        &&& self.topics@ == topics::topics_of(self.cfg.receiver_id@)
        &&& self.battery@ == battery::default_points()
    }

    /// Starts a session from what came of loading the store. The snapshot is to be persisted
    /// at once, so that the store exists before the first reading.
    pub fn start(cfg: Config, loaded: Loaded, now: String) -> (r: (Session, PersistedState))
        ensures
            r.0.wf(),
            r.0.cfg == cfg,
            r.0.runtime@ == initial_runtime(cfg, loaded, now@),
            r.1@ == snapshot_of(cfg, r.0.runtime@),
    {
        let topics: Topics = Topics::new(cfg.receiver_id.as_str());
        let runtime: Runtime = load_runtime(&cfg, loaded, now);
        let stored: PersistedState = snapshot(&cfg, &runtime);
        (Session { cfg, topics, battery: BatteryCurve::default(), runtime }, stored)
    }

    /// Handles what the MQTT client reports.
    pub fn on_event(&mut self, e: Event) -> (out: Vec<Action>)
        requires
            old(self).wf(),
        ensures
            final(self).wf(),
            final(self).cfg == old(self).cfg,
            (final(self).runtime@, actions(out@)) == after_event(
                old(self).cfg,
                old(self).topics@,
                old(self).battery@,
                old(self).runtime@,
                e,
            ),
    {
        let mut out: Vec<Action> = Vec::new();
        assert(actions(out@) =~= Seq::empty());
        match e {
            Event::Connected => {
                let m: Vec<Outgoing> = seed_retained(
                    &self.cfg,
                    &self.topics,
                    &self.runtime.current,
                );
                let ghost expected = connect_messages(
                    self.cfg,
                    self.topics@,
                    self.runtime.current@,
                );
                assert(m@.len() == expected.len());
                let ghost all = m@;
                for msg in it: m
                    invariant
                        it.seq() == all,
                        out@.len() == it.index(),
                        forall|i: int|
                            0 <= i < it.index() ==> (#[trigger] out@[i])@ == ActionView::Publish(
                                all[i]@,
                            ),
                {
                    out.push(Action::Publish(msg));
                }
                proof {
                    assert(messages(all)[0] == all[0]@);
                    assert(messages(all)[1] == all[1]@);
                    assert(messages(all)[2] == all[2]@);
                }
                out.push(Action::Subscribe(self.topics.read.clone()));
                out.push(Action::Subscribe(self.topics.log.clone()));
                out.push(Action::Subscribe(self.topics.connection.clone()));
                assert(actions(out@) =~= connect_actions(
                    self.cfg,
                    self.topics@,
                    self.runtime.current@,
                ));
                out
            },
            Event::Message(m) => handle_publish(
                &self.cfg,
                &self.topics,
                &self.battery,
                &mut self.runtime,
                m,
            ),
            Event::Other => out,
            Event::Failed => {
                out.push(Action::Wait(1));
                assert(actions(out@) =~= seq![ActionView::Wait(1)]);
                out
            },
        }
    }
}

/// Restart: a session that starts from the snapshot of another one has its state verbatim
/// and its history, and on connect publishes the `/state` that was published last. The last
/// pump-out is kept too; where none was known, it is the configured one.
pub proof fn law_restart_restores_the_session(
    cfg: Config,
    topics: TopicsView,
    rt: RuntimeView,
    stored: PersistedState,
    now: Seq<char>,
)
    requires
        stored@ == snapshot_of(cfg, rt),
    ensures
        ({
            let next = initial_runtime(cfg, Loaded::Found(stored), now);
            &&& next.current == rt.current
            &&& next.history == rt.history
            &&& next.lst_empty == (if rt.lst_empty.len() > 0 {
                rt.lst_empty
            } else {
                cfg.state.lst_empty@
            })
            &&& connect_messages(cfg, topics, next.current)[2] == state_message(
                topics.state,
                rt.current,
            )
        }),
{
}

/// History: a reading is the newest record, no more records are kept than the cap allows,
/// and those that are kept are the newest in their order.
pub proof fn law_history_keeps_the_newest(
    cfg: Config,
    curve: Seq<(i64, i64)>,
    rt: RuntimeView,
    r: ReadingView,
    now: Seq<char>,
)
    ensures
        ({
            let cap = cfg.history_max_len as int;
            let before = rt.history;
            let after = after_reading(cfg, curve, rt, r, now).history;
            &&& after.len() == (if before.len() < cap {
                before.len() as int + 1
            } else {
                cap
            })
            &&& cap > 0 ==> after.last().ts == now && after.last().lvl == r.level_cm
            &&& cap > 0 ==> after.last().bat == after_reading(cfg, curve, rt, r, now).current.bat
            &&& forall|i: int|
                0 <= i < after.len() - 1 ==> #[trigger] after[i] == before[before.len()
                    - after.len() + 1 + i]
        }),
{
}

/// Pump-outs: a reading that is less full by the threshold or more resets the last pump-out
/// to its own time, any other leaves it as it was, and the state carries it.
pub proof fn law_pump_out_resets_lst_empty(
    cfg: Config,
    curve: Seq<(i64, i64)>,
    rt: RuntimeView,
    r: ReadingView,
    now: Seq<char>,
)
    ensures
        ({
            let next = after_reading(cfg, curve, rt, r, now);
            &&& next.current.lst_empty == next.lst_empty
            &&& rt.current.pct - next.current.pct >= cfg.pump_out_drop_pct ==> next.lst_empty
                == now
            &&& rt.current.pct - next.current.pct < cfg.pump_out_drop_pct ==> next.lst_empty
                == rt.lst_empty
        }),
{
}

/// Days left: where the history supports no projection, the prior estimate is kept.
pub proof fn law_prior_estimate_is_kept(
    cfg: Config,
    curve: Seq<(i64, i64)>,
    rt: RuntimeView,
    r: ReadingView,
    now: Seq<char>,
)
    ensures
        ({
            let next = after_reading(cfg, curve, rt, r, now);
            next.current.days_left == (match history::projected(
                next.history,
                cfg.calibration.full_dist@,
            ) {
                Some(days) => days,
                None => rt.current.days_left,
            })
        }),
{
}

/// Readings: every reading that is understood is answered with one retained `/state` that
/// shows its level and time, and the same state is persisted before it is published.
pub proof fn law_reading_is_answered(
    cfg: Config,
    curve: Seq<(i64, i64)>,
    rt: RuntimeView,
    m: IncomingView,
    r: ReadingView,
)
    requires
        m.topic == topics::topics_of(cfg.receiver_id@).read,
        reading_in(m.read) == Some(r),
    ensures
        ({
            let t = topics::topics_of(cfg.receiver_id@);
            let (next, done) = after_message(cfg, t, curve, rt, m);
            &&& next.current.lvl == r.level_cm
            &&& next.current.lst_read == m.now
            &&& done == seq![
                ActionView::Persist(snapshot_of(cfg, next)),
                ActionView::Publish(state_message(t.state, next.current)),
            ]
            &&& snapshot_of(cfg, next).last_state == Some(next.current)
        }),
{
}

/// Firmware: what the device announces is echoed verbatim and retained, and changes nothing
/// else.
pub proof fn law_firmware_is_echoed(
    cfg: Config,
    curve: Seq<(i64, i64)>,
    rt: RuntimeView,
    m: IncomingView,
    fw: Seq<char>,
)
    requires
        m.topic == topics::topics_of(cfg.receiver_id@).log,
        firmware::reported_firmware(json::json_document(m.payload), m.payload) == Some(fw),
    ensures
        ({
            let t = topics::topics_of(cfg.receiver_id@);
            after_message(cfg, t, curve, rt, m) == (
                rt,
                seq![ActionView::Publish(retained(t.version, vstd::utf8::encode_utf8(fw)))],
            )
        }),
{
    topics::law_topics_are_distinct(cfg.receiver_id@);
    let t = topics::topics_of(cfg.receiver_id@);
    let all = seq![
        t.version,
        t.state,
        t.radar_params,
        t.read,
        t.log,
        t.connection,
        t.ping,
    ];
    assert(all[3] != all[4]);
}

/// Rejected readings: a payload that is no reading leaves the server as it was, nothing is
/// persisted or published, and what is wrong with it is reported.
pub proof fn law_rejected_reading_changes_nothing(
    cfg: Config,
    topics: TopicsView,
    curve: Seq<(i64, i64)>,
    rt: RuntimeView,
    m: IncomingView,
    p: reading::PayloadView,
    e: ReadError,
)
    requires
        m.topic == topics.read,
        m.read == Some(p),
        reading::reading_of(p) == Err::<ReadingView, ReadError>(e),
    ensures
        after_message(cfg, topics, curve, rt, m) == (rt, seq![ActionView::Rejected(e)]),
{
}

/// Other messages: what is neither a reading nor a firmware announcement does nothing.
pub proof fn law_other_messages_are_ignored(
    cfg: Config,
    topics: TopicsView,
    curve: Seq<(i64, i64)>,
    rt: RuntimeView,
    m: IncomingView,
)
    requires
        m.topic != topics.read,
        m.topic != topics.log,
    ensures
        after_message(cfg, topics, curve, rt, m) == (rt, Seq::<ActionView>::empty()),
{
}

/// Radar parameters: a reader of the retained message gets back the sensor id and the two
/// settings.
pub proof fn law_radar_params_are_readable(sensor: Seq<char>, skip: i64, repeat: i64)
    ensures
        radar_json(sensor, skip as int, repeat as int).plain(100),
        radar_json(sensor, skip as int, repeat as int).member_text("sensor"@) == Some(sensor),
        radar_json(sensor, skip as int, repeat as int).member_integer("skip"@) == Some(skip),
        radar_json(sensor, skip as int, repeat as int).member_integer("repeat"@) == Some(repeat),
{
    reveal_strlit("sensor");
    reveal_strlit("skip");
    reveal_strlit("repeat");
    assert("sensor"@.len() == 6 && "skip"@.len() == 4 && "repeat"@.len() == 6);
    assert("sensor"@[0] != "repeat"@[0]);
    let doc = radar_json(sensor, skip as int, repeat as int);
    let fields = doc->Object_0;
    assert(Json::Text(sensor).plain(99));
    assert(Json::Integer(skip as int).plain(99));
    assert(Json::Integer(repeat as int).plain(99));
    assert("skip"@[0] == 's');
    assert forall|k: Seq<char>| #[trigger] fields.contains_key(k) implies fields[k].plain(99) && !(
    k.len() > 0 && k[0] == '$') by {
        assert(k == "sensor"@ || k == "skip"@ || k == "repeat"@);
    }
}

/// Identity: after any reading the state carries the configured sensor id, name and node, and
/// so does the document that is published for it.
pub proof fn law_state_carries_the_configured_identity(
    cfg: Config,
    curve: Seq<(i64, i64)>,
    rt: RuntimeView,
    r: ReadingView,
    now: Seq<char>,
)
    ensures
        ({
            let s = after_reading(cfg, curve, rt, r, now).current;
            let doc = state::state_json(s);
            let sensor = doc.member("sensors"@)->0.element(0)->0;
            &&& s.id == cfg.sensor_id@
            &&& s.name == cfg.sensor_name@
            &&& s.from == cfg.state.from@
            &&& doc.member_text("from"@) == Some(cfg.state.from@)
            &&& sensor.member_text("id"@) == Some(cfg.sensor_id@)
            &&& sensor.member_text("name"@) == Some(cfg.sensor_name@)
        }),
{
    state::law_state_is_readable(after_reading(cfg, curve, rt, r, now).current);
}

/// Derived values: after any reading the state, and the document that is published for it, show
/// the reading's level and time, and what the configured calibration and the battery curve give
/// for it.
pub proof fn law_state_shows_the_reading(
    cfg: Config,
    curve: Seq<(i64, i64)>,
    rt: RuntimeView,
    r: ReadingView,
    now: Seq<char>,
)
    requires
        curve.len() > 0,
        battery::ascending(curve),
    ensures
        ({
            let s = after_reading(cfg, curve, rt, r, now).current;
            let (full, empty) = (cfg.calibration.full_dist@, cfg.calibration.empty_dist@);
            let level = r.level_cm@;
            let sensor = state::state_json(s).member("sensors"@)->0.element(0)->0;
            &&& s.lvl == r.level_cm
            &&& s.lst_read == now
            &&& s.pct == calibration::fill_percent(full, empty, level)
            &&& s.lvl_to_full == calibration::distance_to_full(full, level)
            &&& s.bat == battery::percent_at(curve, r.battery_mv as int)
            &&& full <= level <= empty && full < empty ==> -(empty - full) <= 2 * (100 * (empty
                - level) - s.pct * (empty - full)) < empty - full
            &&& sensor.member_text("lstRead"@) == Some(now)
            &&& sensor.member_integer("pct"@) == Some(s.pct)
            &&& sensor.member_integer("bat"@) == Some(s.bat)
            &&& sensor.member_integer("lvlToFull"@) == Some(s.lvl_to_full)
            &&& sensor.member_integer("daysLeft"@) == Some(s.days_left)
            &&& sensor.member_text("lstEmpty"@) == Some(s.lst_empty)
            &&& r.level_cm.short() ==> sensor.member("lvl"@)->0.number_text() == Some(
                decimal::decimal_text(r.level_cm),
            )
        }),
{
    let (full, empty) = (cfg.calibration.full_dist@, cfg.calibration.empty_dist@);
    battery::law_percent_is_between_breakpoints(curve, r.battery_mv as int);
    calibration::law_percent_is_the_nearest_share(full, empty, r.level_cm@);
    state::law_state_is_readable(after_reading(cfg, curve, rt, r, now).current);
}

/// On connect: the device is given three retained messages, each delivered at least once: the
/// configured firmware version byte for byte, the radar parameters, and the current state; then
/// its readings, its log and its connection status are subscribed to, and nothing else is done.
pub proof fn law_connect_gives_the_device_what_it_needs(cfg: Config, curve: Seq<(i64, i64)>, rt: RuntimeView)
    ensures
        ({
            let rid = cfg.receiver_id@;
            let t = topics::topics_of(rid);
            let (next, done) = after_event(cfg, t, curve, rt, Event::Connected);
            &&& next == rt
            &&& done == seq![
                ActionView::Publish(
                    OutgoingView {
                        topic: "/version/czujnik_szamba/"@ + rid,
                        payload: vstd::utf8::encode_utf8(cfg.firmware_version@),
                        qos: Qos::AtLeastOnce,
                        retain: true,
                    },
                ),
                ActionView::Publish(
                    OutgoingView {
                        topic: "/users/"@ + rid + "/receivers/"@ + rid + "/radarParams"@,
                        payload: json::json_encoding(
                            radar_json(
                                cfg.sensor_id@,
                                cfg.radar_skip as int,
                                cfg.radar_repeat as int,
                            ),
                        ),
                        qos: Qos::AtLeastOnce,
                        retain: true,
                    },
                ),
                ActionView::Publish(
                    OutgoingView {
                        topic: "/users/"@ + rid + "/state"@,
                        payload: json::json_encoding(state::state_json(rt.current)),
                        qos: Qos::AtLeastOnce,
                        retain: true,
                    },
                ),
                ActionView::Subscribe("/users/"@ + rid + "/sensors/"@ + rid + "/read"@),
                ActionView::Subscribe("/users/"@ + rid + "/sensors/"@ + rid + "/log"@),
                ActionView::Subscribe("/users/"@ + rid + "/sensors/"@ + rid + "/connection"@),
            ]
        }),
{
}

/// Failures: a failed connection is tried again after a second, an event of no interest does
/// nothing, and neither touches what the server knows.
pub proof fn law_failures_only_wait(
    cfg: Config,
    topics: TopicsView,
    curve: Seq<(i64, i64)>,
    rt: RuntimeView,
)
    ensures
        after_event(cfg, topics, curve, rt, Event::Failed) == (rt, seq![ActionView::Wait(1)]),
        after_event(cfg, topics, curve, rt, Event::Other) == (rt, Seq::<ActionView>::empty()),
{
}

/// Answers: what is published for a reading is retained on the state topic, delivered at least
/// once, with the document of the new state as its payload.
pub proof fn law_answer_is_retained(
    cfg: Config,
    curve: Seq<(i64, i64)>,
    rt: RuntimeView,
    m: IncomingView,
    r: ReadingView,
)
    requires
        m.topic == "/users/"@ + cfg.receiver_id@ + "/sensors/"@ + cfg.receiver_id@ + "/read"@,
        reading_in(m.read) == Some(r),
    ensures
        ({
            let (next, done) = after_message(
                cfg,
                topics::topics_of(cfg.receiver_id@),
                curve,
                rt,
                m,
            );
            &&& next == after_reading(cfg, curve, rt, r, m.now)
            &&& done.len() == 2
            &&& done[0] == ActionView::Persist(
                PersistedView {
                    history: next.history,
                    lst_empty: next.lst_empty,
                    last_state: Some(next.current),
                    calibration: cfg.calibration,
                },
            )
            &&& done[1] == ActionView::Publish(
                OutgoingView {
                    topic: "/users/"@ + cfg.receiver_id@ + "/state"@,
                    payload: json::json_encoding(state::state_json(next.current)),
                    qos: Qos::AtLeastOnce,
                    retain: true,
                },
            )
        }),
{
}

/// Readings in messages: a message holds a reading exactly where its payload has the fields of
/// one and they are understood, and then it is that reading.
pub proof fn law_messages_hold_their_reading(p: reading::PayloadView, r: ReadingView)
    ensures
        reading_in(None) is None,
        reading_in(Some(p)) == Some(r) <==> reading::reading_of(p) == Ok::<ReadingView, ReadError>(
            r,
        ),
{
}

/// First start: without a stored state, or with one that cannot be read, the server starts from
/// the configured identity and seed, with no history and the configured pump-out.
pub proof fn law_first_start_is_the_configured_seed(cfg: Config, now: Seq<char>)
    ensures
        initial_runtime(cfg, Loaded::Missing, now) == initial_runtime(
            cfg,
            Loaded::Unreadable,
            now,
        ),
        ({
            let rt = initial_runtime(cfg, Loaded::Missing, now);
            &&& rt.history == Seq::<RecordView>::empty()
            &&& rt.lst_empty == cfg.state.lst_empty@
            &&& rt.current.id == cfg.sensor_id@
            &&& rt.current.name == cfg.sensor_name@
            &&& rt.current.lvl == cfg.state.lvl
            &&& rt.current.pct == cfg.state.pct
            &&& rt.current.bat == cfg.state.bat
            &&& rt.current.lst_read == now
            &&& rt.current.lst_empty == cfg.state.lst_empty@
            &&& rt.current.days_left == cfg.state.days_left
            &&& rt.current.lvl_to_full == cfg.state.lvl_to_full
            &&& rt.current.from == cfg.state.from@
        }),
{
}

/// Restart: what was stored is taken as it was stored, the state and the history verbatim; only
/// what was not stored comes from the configuration.
pub proof fn law_stored_state_is_taken_verbatim(cfg: Config, p: PersistedState, now: Seq<char>)
    ensures
        ({
            let rt = initial_runtime(cfg, Loaded::Found(p), now);
            &&& rt.history == history::records(p.history@)
            &&& p.last_state matches Some(s) ==> rt.current == s@
            &&& p.last_state is None ==> rt.current == initial_runtime(
                cfg,
                Loaded::Missing,
                now,
            ).current
            &&& p.lst_empty@.len() > 0 ==> rt.lst_empty == p.lst_empty@
            &&& p.lst_empty@.len() == 0 ==> rt.lst_empty == cfg.state.lst_empty@
        }),
{
}

/// Snapshots: everything that the server knows is persisted, with the configured calibration.
pub proof fn law_snapshot_holds_everything(cfg: Config, rt: RuntimeView)
    ensures
        ({
            let p = snapshot_of(cfg, rt);
            &&& p.history == rt.history
            &&& p.lst_empty == rt.lst_empty
            &&& p.last_state == Some(rt.current)
            &&& p.calibration == cfg.calibration
        }),
{
}

/// Contents: what messages, a runtime and actions are said to hold is what their fields hold.
pub proof fn law_messages_show_their_fields(
    o: Outgoing,
    m: Incoming,
    rt: Runtime,
    p: PersistedState,
    topic: String,
    seconds: u64,
    e: ReadError,
)
    ensures
        o@.topic == o.topic@ && o@.payload == o.payload@ && o@.qos == o.qos,
        o@.retain == o.retain,
        m@.topic == m.topic@ && m@.payload == m.payload@ && m@.now == m.now@,
        m.read matches Some(read) ==> m@.read == Some(read@),
        m.read is None ==> m@.read is None,
        rt@.current == rt.current@ && rt@.lst_empty == rt.lst_empty@,
        rt@.history.len() == rt.history@.len(),
        forall|i: int| 0 <= i < rt.history@.len() ==> #[trigger] rt@.history[i] == rt.history@[i]@,
        Action::Persist(p)@ == ActionView::Persist(p@),
        Action::Publish(o)@ == ActionView::Publish(o@),
        Action::Subscribe(topic)@ == ActionView::Subscribe(topic@),
        Action::Wait(seconds)@ == ActionView::Wait(seconds),
        Action::Rejected(e)@ == ActionView::Rejected(e),
{
}

/// Silence: a log line that announces no firmware, and a reading whose payload does not have the
/// fields of one, do nothing.
pub proof fn law_nothing_understood_does_nothing(
    cfg: Config,
    curve: Seq<(i64, i64)>,
    rt: RuntimeView,
    m: IncomingView,
)
    ensures
        ({
            let t = topics::topics_of(cfg.receiver_id@);
            let silent = after_message(cfg, t, curve, rt, m) == (rt, Seq::<ActionView>::empty());
            &&& m.topic == t.read && m.read is None ==> silent
            &&& m.topic == t.log && firmware::reported_firmware(
                json::json_document(m.payload),
                m.payload,
            ) is None ==> silent
        }),
{
    topics::law_topics_are_distinct(cfg.receiver_id@);
    let t = topics::topics_of(cfg.receiver_id@);
    let all = seq![t.version, t.state, t.radar_params, t.read, t.log, t.connection, t.ping];
    assert(all[3] != all[4]);
}

/// Events: a message that the client reports is handled as the message that it is.
pub proof fn law_reported_messages_are_handled(
    cfg: Config,
    topics: TopicsView,
    curve: Seq<(i64, i64)>,
    rt: RuntimeView,
    m: Incoming,
)
    ensures
        after_event(cfg, topics, curve, rt, Event::Message(m)) == after_message(
            cfg,
            topics,
            curve,
            rt,
            m@,
        ),
{
}

} // verus!
