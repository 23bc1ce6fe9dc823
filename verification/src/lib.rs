//! Offline stand-in for the Aquilo vendor cloud: it keeps the device connected and answers
//! each raw reading with a calibrated retained `/state`, so that the device's own HTTP
//! `/state` keeps serving without the internet.
//!
//! Time, files and sockets stay outside: callers hand in what they read and do what they are
//! told, so every computation here is a function of its arguments.

pub mod args;
pub mod battery;
pub mod broker;
pub mod calibration;
pub mod config;
pub mod config_file;
pub mod decimal;
pub mod defaults;
pub mod exact;
pub mod firmware;
pub mod history;
pub mod json;
pub mod mqtt_wire;
pub mod number;
pub mod onboard;
pub mod reading;
pub mod rendering;
pub mod server;
pub mod state;
pub mod store;
pub mod text;
pub mod topics;

pub use battery::BatteryCurve;
pub use calibration::Calibration;
pub use history::ReadingRecord;
pub use reading::{RawFrame, Reading};
pub use state::{SensorState, StaticFields};
