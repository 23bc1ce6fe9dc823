//! MQTT topic strings, all templated from the receiver id.

use vstd::prelude::*;
use vstd::string::StringExecFns;

verus! {

/// The topics of one receiver.
pub struct Topics {
    /// Retained firmware version that the device checks against.
    pub version: String,
    /// Retained computed state, which the device caches and serves.
    pub state: String,
    /// Retained radar and radio parameters for the sensor node.
    pub radar_params: String,
    /// Raw measurement published by the device.
    pub read: String,
    /// Version and MAC announcement published by the device on connect.
    pub log: String,
    /// `online` or `offline`, published by the device.
    pub connection: String,
    /// Keepalive published by the server.
    pub ping: String,
}

/// What [`Topics`] hold.
pub struct TopicsView {
    pub version: Seq<char>,
    pub state: Seq<char>,
    pub radar_params: Seq<char>,
    pub read: Seq<char>,
    pub log: Seq<char>,
    pub connection: Seq<char>,
    pub ping: Seq<char>,
}

impl View for Topics {
    type V = TopicsView;

    open spec fn view(&self) -> TopicsView {
        TopicsView {
            version: self.version@,
            state: self.state@,
            radar_params: self.radar_params@,
            read: self.read@,
            log: self.log@,
            connection: self.connection@,
            ping: self.ping@,
        }
    }
}

/// The topics of the receiver `rid`.
pub open spec fn topics_of(rid: Seq<char>) -> TopicsView {
    TopicsView {
        version: "/version/czujnik_szamba/"@ + rid,
        state: "/users/"@ + rid + "/state"@,
        radar_params: "/users/"@ + rid + "/receivers/"@ + rid + "/radarParams"@,
        read: "/users/"@ + rid + "/sensors/"@ + rid + "/read"@,
        log: "/users/"@ + rid + "/sensors/"@ + rid + "/log"@,
        connection: "/users/"@ + rid + "/sensors/"@ + rid + "/connection"@,
        ping: "/ping"@,
    }
}

fn user_topic(rid: &str, kind: &str, name: &str) -> (s: String)
    ensures
        s@ == "/users/"@ + rid@ + kind@ + rid@ + name@,
{
    let mut s: String = "/users/".to_owned();
    s.append(rid);
    s.append(kind);
    s.append(rid);
    s.append(name);
    s
}

impl Topics {
    /// The topics of a receiver.
    pub fn new(rid: &str) -> (t: Topics)
        ensures
            t@ == topics_of(rid@),
    {
        let mut version: String = "/version/czujnik_szamba/".to_owned();
        version.append(rid);
        let mut state: String = "/users/".to_owned();
        state.append(rid);
        state.append("/state");
        Topics {
            version,
            state,
            radar_params: user_topic(rid, "/receivers/", "/radarParams"),
            read: user_topic(rid, "/sensors/", "/read"),
            log: user_topic(rid, "/sensors/", "/log"),
            connection: user_topic(rid, "/sensors/", "/connection"),
            ping: "/ping".to_owned(),
        }
    }
}

/// Routing: no two of a receiver's topics are the same, so a message has one meaning.
pub proof fn law_topics_are_distinct(rid: Seq<char>)
    ensures
        ({
            let t = topics_of(rid);
            seq![
                t.version,
                t.state,
                t.radar_params,
                t.read,
                t.log,
                t.connection,
                t.ping,
            ].no_duplicates()
        }),
{
    reveal_strlit("/version/czujnik_szamba/");
    reveal_strlit("/users/");
    reveal_strlit("/state");
    reveal_strlit("/receivers/");
    reveal_strlit("/radarParams");
    reveal_strlit("/sensors/");
    reveal_strlit("/read");
    reveal_strlit("/log");
    reveal_strlit("/connection");
    reveal_strlit("/ping");
    let t = topics_of(rid);
    assert(t.version[1] == 'v');
    assert(t.state[1] == 'u' && t.radar_params[1] == 'u' && t.read[1] == 'u' && t.log[1] == 'u'
        && t.connection[1] == 'u');
    assert(t.ping[1] == 'p');
    let n = rid.len();
    assert(t.state.len() == 13 + n);
    assert(t.log.len() == 20 + 2 * n);
    assert(t.read.len() == 21 + 2 * n);
    assert(t.connection.len() == 27 + 2 * n);
    assert(t.radar_params.len() == 30 + 2 * n);
}

/// Names: every topic but the keepalive names the receiver, at the place where the device
/// publishes or listens.
pub proof fn law_topics_name_the_receiver(rid: Seq<char>)
    ensures
        ({
            let t = topics_of(rid);
            &&& t.version == "/version/czujnik_szamba/"@ + rid
            &&& t.state == "/users/"@ + rid + "/state"@
            &&& t.radar_params == "/users/"@ + rid + "/receivers/"@ + rid + "/radarParams"@
            &&& t.read == "/users/"@ + rid + "/sensors/"@ + rid + "/read"@
            &&& t.log == "/users/"@ + rid + "/sensors/"@ + rid + "/log"@
            &&& t.connection == "/users/"@ + rid + "/sensors/"@ + rid + "/connection"@
            &&& t.ping == "/ping"@
        }),
{
}

/// Suffixes: onboarding, which knows a topic by its end, takes the device's log and readings and
/// the cloud's state, radar parameters and version for what they are.
pub proof fn law_topics_are_known_by_their_ends(rid: Seq<char>)
    ensures
        ({
            let t = topics_of(rid);
            &&& "/read"@.is_suffix_of(t.read)
            &&& "/log"@.is_suffix_of(t.log)
            &&& "/state"@.is_suffix_of(t.state)
            &&& "/radarParams"@.is_suffix_of(t.radar_params)
            &&& "/version/"@.is_prefix_of(t.version)
        }),
{
    reveal_strlit("/version/");
    reveal_strlit("/version/czujnik_szamba/");
    let t = topics_of(rid);
    let (r, l, s, p) = (t.read.len(), t.log.len(), t.state.len(), t.radar_params.len());
    assert(t.read.subrange(r - "/read"@.len(), r as int) =~= "/read"@);
    assert(t.log.subrange(l - "/log"@.len(), l as int) =~= "/log"@);
    assert(t.state.subrange(s - "/state"@.len(), s as int) =~= "/state"@);
    assert(t.radar_params.subrange(p - "/radarParams"@.len(), p as int) =~= "/radarParams"@);
    assert(t.version.subrange(0, 9) =~= "/version/"@);
}

/// Contents: what topics are said to hold is what their fields hold.
pub proof fn law_topics_show_their_fields(t: Topics)
    ensures
        t@.version == t.version@ && t@.state == t.state@ && t@.radar_params == t.radar_params@,
        t@.read == t.read@ && t@.log == t.log@ && t@.connection == t.connection@,
        t@.ping == t.ping@,
{
}

} // verus!
