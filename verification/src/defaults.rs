//! Values that a configuration may leave out.

use vstd::prelude::*;

use crate::decimal;
use crate::decimal::Decimal;

verus! {

pub fn radar_skip() -> (r: i64)
    ensures
        r == 9,
{
    9
}

pub fn radar_repeat() -> (r: i64)
    ensures
        r == 9,
{
    9
}

pub fn bind_addr() -> (r: String)
    ensures
        r@ == "0.0.0.0"@,
{
    "0.0.0.0".to_owned()
}

pub fn listen_port() -> (r: u16)
    ensures
        r == 1883,
{
    1883
}

pub fn ping_interval_secs() -> (r: u64)
    ensures
        r == 1200,
{
    1200
}

pub fn data_dir() -> (r: String)
    ensures
        r@ == "/data"@,
{
    "/data".to_owned()
}

pub fn history_max_len() -> (r: usize)
    ensures
        r == 500,
{
    500
}

pub fn pump_out_drop_pct() -> (r: i64)
    ensures
        r == 25,
{
    25
}

pub fn from() -> (r: String)
    ensures
        r@ == "node-4"@,
{
    "node-4".to_owned()
}

/// The level of the placeholder `/state` that is shown until the first live reading.
pub fn seed_lvl() -> (r: Decimal)
    ensures
        r == decimal::fraction(1502, 1),
        r.canonical(),
{
    Decimal::new(1502, 1)
}

pub fn seed_pct() -> (r: i64)
    ensures
        r == 20,
{
    20
}

pub fn seed_bat() -> (r: i64)
    ensures
        r == 83,
{
    83
}

pub fn seed_lvl_to_full() -> (r: i64)
    ensures
        r == 110,
{
    110
}

} // verus!
