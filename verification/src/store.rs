//! What the server remembers across restarts, and where it is kept.

use vstd::prelude::*;
use vstd::string::StringExecFns;

use crate::calibration;
use crate::calibration::Calibration;
use crate::history;
use crate::history::{ReadingRecord, RecordView};
use crate::state::{SensorState, StateView};

verus! {

/// Everything that is persisted.
#[derive(Clone, Debug, PartialEq)]
pub struct PersistedState {
    /// Rolling reading history.
    pub history: Vec<ReadingRecord>,
    /// Last detected pump-out (RFC 3339).
    pub lst_empty: String,
    /// The last computed `/state`.
    pub last_state: Option<SensorState>,
    /// The calibration that the history was recorded under.
    pub calibration: Calibration,
}

/// What a [`PersistedState`] holds.
pub struct PersistedView {
    pub history: Seq<RecordView>,
    pub lst_empty: Seq<char>,
    pub last_state: Option<StateView>,
    pub calibration: Calibration,
}

/// What an optional state holds.
pub open spec fn optional_state(s: Option<SensorState>) -> Option<StateView> {
    match s {
        Some(s) => Some(s@),
        None => None,
    }
}

impl View for PersistedState {
    type V = PersistedView;

    open spec fn view(&self) -> PersistedView {
        PersistedView {
            history: history::records(self.history@),
            lst_empty: self.lst_empty@,
            last_state: optional_state(self.last_state),
            calibration: self.calibration,
        }
    }
}

impl Default for PersistedState {
    /// Nothing remembered.
    fn default() -> (p: PersistedState)
        ensures
            p.history@.len() == 0,
            p.lst_empty@ == Seq::<char>::empty(),
            p.last_state is None,
            p.calibration == calibration::default_calibration(),
    {
        PersistedState {
            history: Vec::new(),
            lst_empty: String::new(),
            last_state: None,
            calibration: Calibration::default(),
        }
    }
}

/// A store in a single JSON file, which is replaced by renaming a temporary file over it.
pub struct JsonFileStore {
    path: String,
    tmp: String,
}

/// The path of a file in a directory.
pub open spec fn joined(dir: Seq<char>, name: Seq<char>) -> Seq<char> {
    if dir.len() == 0 || dir.last() == '/' {
        dir + name
    } else {
        dir + "/"@ + name
    }
}

/// The part of a path up to its last separator.
pub open spec fn directory(path: Seq<char>) -> Seq<char>
    decreases path.len(),
{
    if path.len() == 0 || path.last() == '/' {
        path
    } else {
        directory(path.drop_last())
    }
}

/// The temporary file of a path.
pub open spec fn temporary(path: Seq<char>) -> Seq<char> {
    path + ".tmp"@
}

impl JsonFileStore {
    /// The file that holds the state.
    pub closed spec fn file(&self) -> Seq<char> {
        self.path@
    }

    /// The file that a new state is written to first.
    pub closed spec fn temporary_file(&self) -> Seq<char> {
        self.tmp@
    }

    /// A store at the given file.
    pub fn new(path: String) -> (s: JsonFileStore)
        ensures
            s.file() == path@,
            s.temporary_file() == temporary(path@),
    {
        let mut tmp: String = path.clone();
        tmp.append(".tmp");
        JsonFileStore { path, tmp }
    }

    /// A store at `state.json` in the given directory.
    pub fn in_dir(dir: &str) -> (s: JsonFileStore)
        ensures
            s.file() == joined(dir@, "state.json"@),
            s.temporary_file() == temporary(joined(dir@, "state.json"@)),
    {
        let n: usize = dir.unicode_len();
        let mut path: String = dir.to_owned();
        if n != 0 && dir.get_char(n - 1) != '/' {
            path.append("/");
        }
        path.append("state.json");
        JsonFileStore::new(path)
    }

    /// The path of the file that holds the state.
    pub fn path(&self) -> (s: &str)
        ensures
            s@ == self.file(),
    {
        self.path.as_str()
    }

    /// The path of the file that a new state is written to first.
    pub fn tmp_path(&self) -> (s: &str)
        ensures
            s@ == self.temporary_file(),
    {
        self.tmp.as_str()
    }
}

/// Atomic replacement: the temporary file is another file in the same directory, so that
/// renaming it over the state file stays within one file system.
pub proof fn law_temporary_file_is_beside(path: Seq<char>)
    ensures
        directory(temporary(path)) == directory(path),
        temporary(path) != path,
{
    reveal_strlit(".tmp");
    let tmp = temporary(path);
    assert(tmp.len() == path.len() + 4);
    let t1 = tmp.drop_last();
    let t2 = t1.drop_last();
    let t3 = t2.drop_last();
    assert(t3.drop_last() =~= path);
    assert(directory(tmp) == directory(t1));
    assert(directory(t1) == directory(t2));
    assert(directory(t2) == directory(t3));
    assert(directory(t3) == directory(path));
}

/// Places: the state file stands in its directory, with one separator in front of its name.
pub proof fn law_file_stands_in_its_directory(dir: Seq<char>, name: Seq<char>)
    ensures
        dir.len() > 0 && dir.last() != '/' ==> joined(dir, name) == dir + seq!['/'] + name,
        dir.len() == 0 || dir.last() == '/' ==> joined(dir, name) == dir + name,
        temporary(joined(dir, name)) == joined(dir, name) + seq!['.', 't', 'm', 'p'],
{
    reveal_strlit("/");
    reveal_strlit(".tmp");
    assert("/"@ =~= seq!['/']);
    assert(".tmp"@ =~= seq!['.', 't', 'm', 'p']);
}

/// Contents: what a persisted state and a record are said to hold is what their fields hold.
pub proof fn law_stored_states_show_their_fields(p: PersistedState, r: ReadingRecord)
    ensures
        p@.lst_empty == p.lst_empty@ && p@.calibration == p.calibration,
        p.last_state matches Some(s) ==> p@.last_state == Some(s@),
        p.last_state is None ==> p@.last_state is None,
        p@.history.len() == p.history@.len(),
        forall|i: int| 0 <= i < p.history@.len() ==> #[trigger] p@.history[i] == p.history@[i]@,
        r@.ts == r.ts@ && r@.lvl == r.lvl && r@.bat == r.bat,
{
}

} // verus!
