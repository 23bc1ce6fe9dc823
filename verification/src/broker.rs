//! How the embedded broker is set up: who may log in, where it listens, and its limits.

use vstd::prelude::*;
use vstd::string::StringExecFns;

use crate::config::Config;
use crate::number;
use crate::text;

verus! {

/// User name that the server's own client logs in with.
pub const INTERNAL_USER: &'static str = "aquilo-server";

/// Password that the server's own client logs in with.
pub const INTERNAL_PASS: &'static str = "aquilo-internal";

/// The settings of the embedded broker.
pub struct BrokerPlan {
    /// Logins that are accepted, no user name twice.
    pub auth: Vec<(String, String)>,
    /// Address and port to listen on.
    pub listen: String,
    /// Name of the one server.
    pub name: String,
    pub connection_timeout_ms: u16,
    pub max_payload_size: usize,
    pub max_inflight_count: usize,
    pub next_connection_delay_ms: u64,
    pub dynamic_filters: bool,
    pub max_connections: usize,
    pub max_outgoing_packet_count: u64,
    pub max_segment_size: usize,
    pub max_segment_count: usize,
}

/// The logins of a list, the later ones winning.
pub open spec fn logins(list: Seq<(String, String)>) -> Map<Seq<char>, Seq<char>>
    decreases list.len(),
{
    if list.len() == 0 {
        Map::empty()
    } else {
        logins(list.drop_last()).insert(list.last().0@, list.last().1@)
    }
}

/// An address with a port behind it.
pub open spec fn socket_address(addr: Seq<char>, port: u16) -> Seq<char> {
    addr + ":"@ + number::natural_text(port as nat)
}

/// Writes an address with a port behind it.
pub fn write_socket_address(addr: &str, port: u16) -> (s: String)
    ensures
        s@ == socket_address(addr@, port),
{
    let mut s: String = addr.to_owned();
    s.append(":");
    s.append(number::write_natural(port as u64).as_str());
    s
}

/// The settings of the embedded broker for a configuration. Both the device and the server's
/// own client have to log in; the own login wins where the user names are the same.
pub fn broker_plan(cfg: &Config) -> (p: BrokerPlan)
    ensures
        logins(p.auth@) == Map::<Seq<char>, Seq<char>>::empty().insert(
            cfg.mqtt_user@,
            cfg.mqtt_pass@,
        ).insert(INTERNAL_USER@, INTERNAL_PASS@),
        forall|i: int, j: int|
            0 <= i < j < p.auth@.len() ==> #[trigger] p.auth@[i].0@ != #[trigger] p.auth@[j].0@,
        cfg.mqtt_user@ != INTERNAL_USER@ ==> {
            &&& p.auth@.len() == 2
            &&& p.auth@[0].0@ == cfg.mqtt_user@ && p.auth@[0].1@ == cfg.mqtt_pass@
            &&& p.auth@[1].0@ == INTERNAL_USER@ && p.auth@[1].1@ == INTERNAL_PASS@
        },
        cfg.mqtt_user@ == INTERNAL_USER@ ==> {
            &&& p.auth@.len() == 1
            &&& p.auth@[0].0@ == INTERNAL_USER@ && p.auth@[0].1@ == INTERNAL_PASS@
        },
        p.listen@ == socket_address(cfg.bind_addr@, cfg.listen_port),
        p.name@ == "v4-1"@,
        p.connection_timeout_ms == 60_000,
        p.max_payload_size == 20480,
        p.max_inflight_count == 100,
        p.next_connection_delay_ms == 1,
        p.dynamic_filters,
        p.max_connections == 10010,
        p.max_outgoing_packet_count == 200,
        p.max_segment_size == 104_857_600,
        p.max_segment_count == 10,
{
    let mut auth: Vec<(String, String)> = Vec::new();
    if !text::same(cfg.mqtt_user.as_str(), INTERNAL_USER) {
        auth.push((cfg.mqtt_user.clone(), cfg.mqtt_pass.clone()));
    }
    let ghost device = auth@;
    auth.push((INTERNAL_USER.to_owned(), INTERNAL_PASS.to_owned()));
    proof {
        assert(auth@.drop_last() =~= device);
        if device.len() > 0 {
            assert(device.drop_last() =~= Seq::empty());
            assert(logins(device.drop_last()) == Map::<Seq<char>, Seq<char>>::empty());
        }
        assert(logins(auth@) == logins(device).insert(INTERNAL_USER@, INTERNAL_PASS@));
        assert(logins(auth@) =~= Map::<Seq<char>, Seq<char>>::empty().insert(
            cfg.mqtt_user@,
            cfg.mqtt_pass@,
        ).insert(INTERNAL_USER@, INTERNAL_PASS@));
    }
    BrokerPlan {
        auth,
        listen: write_socket_address(cfg.bind_addr.as_str(), cfg.listen_port),
        name: "v4-1".to_owned(),
        connection_timeout_ms: 60_000,
        max_payload_size: 20480,
        max_inflight_count: 100,
        next_connection_delay_ms: 1,
        dynamic_filters: true,
        max_connections: 10010,
        max_outgoing_packet_count: 200,
        max_segment_size: 104_857_600,
        max_segment_count: 10,
    }
}

/// Logins: the device can log in with its own credentials, unless it claims the user name of
/// the server's own client.
pub proof fn law_device_and_server_can_log_in(user: Seq<char>, pass: Seq<char>)
    ensures
        ({
            let m = Map::<Seq<char>, Seq<char>>::empty().insert(user, pass).insert(
                INTERNAL_USER@,
                INTERNAL_PASS@,
            );
            &&& m["aquilo-server"@] == "aquilo-internal"@
            &&& m[INTERNAL_USER@] == INTERNAL_PASS@
            &&& user != INTERNAL_USER@ ==> m.contains_key(user) && m[user] == pass
            &&& forall|other: Seq<char>|
                other != user && other != INTERNAL_USER@ ==> !#[trigger] m.contains_key(other)
        }),
{
}

/// Addresses: an address and a port are written with a colon between them, the port in decimal.
pub proof fn law_address_is_followed_by_its_port(addr: Seq<char>, port: u16)
    ensures
        ({
            let s = socket_address(addr, port);
            &&& s.len() > addr.len() + 1
            &&& s.take(addr.len() as int) == addr
            &&& s[addr.len() as int] == ':'
            &&& number::natural_of(s.skip(addr.len() as int + 1)) == Some(port as int)
        }),
{
    reveal_strlit(":");
    number::natural_text_reads_back(port as nat);
    let s = socket_address(addr, port);
    let n = addr.len() as int;
    assert(s.take(n) =~= addr);
    assert(s.skip(n + 1) =~= number::natural_text(port as nat));
}

} // verus!
