//! Where the state is kept.

use aquilo::calibration::Calibration;
use aquilo::store::{JsonFileStore, PersistedState};

#[test]
fn the_state_file_is_in_the_data_directory() {
    let s = JsonFileStore::in_dir("/data");
    assert_eq!(s.path(), "/data/state.json");
    assert_eq!(s.tmp_path(), "/data/state.json.tmp");
    assert_eq!(JsonFileStore::in_dir("/data/").path(), "/data/state.json");
    assert_eq!(JsonFileStore::in_dir("").path(), "state.json");
    for dir in ["", "/", "a", "a/b", "a//", "./x"] {
        let joined = std::path::Path::new(dir).join("state.json");
        assert_eq!(JsonFileStore::in_dir(dir).path(), joined.to_str().unwrap());
    }
    assert_eq!(JsonFileStore::new("x/y.json".into()).tmp_path(), "x/y.json.tmp");
}

#[test]
fn nothing_is_remembered_at_first() {
    let p = PersistedState::default();
    assert!(p.history.is_empty());
    assert_eq!(p.lst_empty, "");
    assert_eq!(p.last_state, None);
    assert_eq!(p.calibration, Calibration::default());
}
