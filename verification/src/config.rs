//! Device and tank configuration.

use vstd::prelude::*;

use crate::calibration::Calibration;
use crate::decimal;
use crate::decimal::Decimal;
use crate::defaults;

verus! {

/// Everything that is specific to one device and one tank.
#[derive(Clone, Debug)]
pub struct Config {
    /// Receiver id, which all topics are templated from.
    pub receiver_id: String,
    /// Sensor-node id reported inside `/state`.
    pub sensor_id: String,
    /// Fixed MQTT user name that the device connects with.
    pub mqtt_user: String,
    /// Fixed MQTT password that the device connects with.
    pub mqtt_pass: String,
    /// Firmware string echoed back on the version topic, so that no update is triggered.
    pub firmware_version: String,
    /// Display name of the sensor in `/state`.
    pub sensor_name: String,
    pub radar_skip: i64,
    pub radar_repeat: i64,
    pub bind_addr: String,
    pub listen_port: u16,
    pub ping_interval_secs: u64,
    /// Directory of the persisted state file.
    pub data_dir: String,
    /// Cap on history records; the oldest are dropped past it.
    pub history_max_len: usize,
    /// Fall in fullness between two readings, in percentage points, that is a pump-out.
    pub pump_out_drop_pct: i64,
    pub calibration: Calibration,
    /// External broker to connect to in place of the embedded one.
    pub broker: Option<BrokerSettings>,
    /// The `/state` that is published before the first reading.
    pub state: StateSeed,
}

/// How to reach a broker that already exists.
#[derive(Clone, Debug)]
pub struct BrokerSettings {
    pub host: String,
    pub port: u16,
    pub username: String,
    pub password: String,
}

/// The last known `/state`, as far as it is configured.
#[derive(Clone, Debug)]
pub struct StateSeed {
    /// Radar level in centimetres.
    pub lvl: Decimal,
    pub pct: i64,
    pub bat: i64,
    pub days_left: i64,
    pub lvl_to_full: i64,
    /// Last pump-out (RFC 3339); empty until known.
    pub lst_empty: String,
    pub from: String,
}

impl Default for StateSeed {
    fn default() -> (s: StateSeed)
        ensures
            s.lvl == decimal::fraction(1502, 1),
            s.pct == 20,
            s.bat == 83,
            s.days_left == 0,
            s.lvl_to_full == 110,
            s.lst_empty@ == Seq::<char>::empty(),
            s.from@ == "node-4"@,
    {
        StateSeed {
            lvl: defaults::seed_lvl(),
            pct: defaults::seed_pct(),
            bat: defaults::seed_bat(),
            days_left: 0,
            lvl_to_full: defaults::seed_lvl_to_full(),
            lst_empty: String::new(),
            from: defaults::from(),
        }
    }
}

} // verus!
