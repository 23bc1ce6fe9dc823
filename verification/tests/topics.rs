//! Topic templates.

use aquilo::topics::Topics;

#[test]
fn templates_from_receiver_id() {
    let t = Topics::new("ae83fc");
    assert_eq!(t.version, "/version/czujnik_szamba/ae83fc");
    assert_eq!(t.state, "/users/ae83fc/state");
    assert_eq!(t.radar_params, "/users/ae83fc/receivers/ae83fc/radarParams");
    assert_eq!(t.read, "/users/ae83fc/sensors/ae83fc/read");
    assert_eq!(t.log, "/users/ae83fc/sensors/ae83fc/log");
    assert_eq!(t.connection, "/users/ae83fc/sensors/ae83fc/connection");
}

#[test]
fn no_two_topics_are_the_same() {
    let t = Topics::new("");
    let all = [
        &t.version, &t.state, &t.radar_params, &t.read, &t.log, &t.connection, &t.ping,
    ];
    for i in 0..all.len() {
        for j in 0..i {
            assert_ne!(all[i], all[j]);
        }
    }
    assert_eq!(t.ping, "/ping");
}
