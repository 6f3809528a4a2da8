//! The alarms file: what is kept in it, what is made of it at start, the steps that replace it,
//! and where it lies by default. Paths are the bytes of Unix paths.

use crate::alarm::{Alarm, AlarmView};
use vstd::prelude::*;
use vstd::slice::slice_to_vec;
use vstd::string::StringSliceAdditionalSpecFns;

verus! {

/// What the alarms file keeps: the alarms, and the IDs of those that were ringing, so that they
/// go on ringing after a restart.
#[derive(Debug, PartialEq, Eq)]
pub struct PersistedState {
    pub alarms: Vec<Alarm>,
    pub ringing_ids: Vec<u128>,
}

/// What a [`PersistedState`] says, with mathematical sequences.
pub struct PersistedView {
    pub alarms: Seq<AlarmView>,
    pub ringing_ids: Seq<u128>,
}

/// What each alarm of the sequence says.
pub open spec fn alarm_views(alarms: Seq<Alarm>) -> Seq<AlarmView> {
    Seq::new(alarms.len(), |i: int| alarms[i]@)
}

impl View for PersistedState {
    type V = PersistedView;

    open spec fn view(&self) -> PersistedView {
        PersistedView { alarms: alarm_views(self.alarms@), ringing_ids: self.ringing_ids@ }
    }
}

impl PersistedView {
    pub open spec fn wf(self) -> bool {
        forall|i: int| 0 <= i < self.alarms.len() ==> (#[trigger] self.alarms[i]).wf()
    }

    /// The state as it is read back from the file that it was written to.
    pub open spec fn as_written(self) -> PersistedView {
        PersistedView {
            alarms: Seq::new(self.alarms.len(), |i: int| self.alarms[i].as_written()),
            ringing_ids: self.ringing_ids,
        }
    }

    /// No alarms, and none ringing.
    pub open spec fn nothing() -> PersistedView {
        PersistedView { alarms: Seq::empty(), ringing_ids: Seq::empty() }
    }
}

/// The alarms by their IDs, the last one where several have the same ID.
pub open spec fn alarms_by_id(alarms: Seq<AlarmView>) -> Map<u128, AlarmView>
    decreases alarms.len(),
{
    if alarms.len() == 0 {
        Map::empty()
    } else {
        alarms_by_id(alarms.drop_last()).insert(alarms.last().id, alarms.last())
    }
}

/// What came of reading the alarms file.
pub enum StoreRead {
    /// There is no such file.
    Missing,
    /// The file could not be read.
    Unreadable,
    /// The file was read. `state` is what its contents say, if they have the present form, and
    /// `legacy` what they say, if they have the older form of a bare list of alarms.
    Contents { state: Option<PersistedState>, legacy: Option<Vec<Alarm>> },
}

/// What there is to report of a load.
#[derive(Clone, Copy, Debug, PartialEq, Eq, Structural)]
pub enum LoadReport {
    Fine,
    /// The file is there and could not be read.
    Unreadable,
    /// The contents of the file have neither form.
    Unparsable,
}

/// The state to start with, and what there is to report.
#[derive(Debug, PartialEq, Eq)]
pub struct LoadedState {
    pub state: PersistedState,
    pub report: LoadReport,
}

/// The state that a read of the alarms file gives.
pub open spec fn loaded_view(read: StoreRead) -> PersistedView {
    match read {
        StoreRead::Contents { state: Some(state), .. } => state@,
        StoreRead::Contents { state: None, legacy: Some(alarms) } => PersistedView {
            alarms: alarm_views(alarms@),
            ringing_ids: Seq::empty(),
        },
        _ => PersistedView::nothing(),
    }
}

/// The state to start with, given what came of reading the alarms file. It starts with no
/// alarms where there is no file, and also where the file is of no use, which is reported: an
/// alarm clock that does not start is worse than one that has forgotten its alarms.
pub fn load_state(read: StoreRead) -> (r: LoadedState)
    ensures
        r.state@ == loaded_view(read),
        r.report == match read {
            StoreRead::Unreadable => LoadReport::Unreadable,
            StoreRead::Contents { state: None, legacy: None } => LoadReport::Unparsable,
            _ => LoadReport::Fine,
        },
{
    match read {
        StoreRead::Missing => LoadedState { state: empty_state(), report: LoadReport::Fine },
        StoreRead::Unreadable => LoadedState {
            state: empty_state(),
            report: LoadReport::Unreadable,
        },
        StoreRead::Contents { state, legacy } => match state {
            Some(state) => LoadedState { state, report: LoadReport::Fine },
            None => match legacy {
                Some(alarms) => LoadedState {
                    state: PersistedState { alarms, ringing_ids: Vec::new() },
                    report: LoadReport::Fine,
                },
                None => LoadedState { state: empty_state(), report: LoadReport::Unparsable },
            },
        },
    }
}

/// No alarms, and none ringing.
fn empty_state() -> (r: PersistedState)
    ensures
        r@ == PersistedView::nothing(),
{
    let r = PersistedState { alarms: Vec::new(), ringing_ids: Vec::new() };
    assert(r@.alarms =~= Seq::empty());
    r
}

/// A step of replacing the alarms file.
#[derive(Debug, PartialEq, Eq)]
pub enum SaveStep {
    /// Create the directory and those above it.
    CreateDirectory(Vec<u8>),
    /// Turn the state into the bytes to be written.
    Encode,
    /// Write the bytes to the file.
    Write(Vec<u8>),
    /// Give the first file the name of the second, in place of what had that name.
    Rename(Vec<u8>, Vec<u8>),
}

/// What a [`SaveStep`] says, with mathematical sequences.
pub enum SaveStepView {
    CreateDirectory(Seq<u8>),
    Encode,
    Write(Seq<u8>),
    Rename(Seq<u8>, Seq<u8>),
}

impl View for SaveStep {
    type V = SaveStepView;

    open spec fn view(&self) -> SaveStepView {
        match self {
            SaveStep::CreateDirectory(path) => SaveStepView::CreateDirectory(path@),
            SaveStep::Encode => SaveStepView::Encode,
            SaveStep::Write(path) => SaveStepView::Write(path@),
            SaveStep::Rename(from, to) => SaveStepView::Rename(from@, to@),
        }
    }
}

/// The file that is written in full before it takes the place of `path`: `path` with `.tmp`
/// at its end.
pub open spec fn temporary_path(path: Seq<u8>) -> Seq<u8> {
    path + ".tmp".spec_bytes()
}

/// The steps that replace the alarms file at `path`, whose parent directory is `parent`.
pub open spec fn save_plan(path: Seq<u8>, parent: Option<Seq<u8>>) -> Seq<SaveStepView> {
    let replacement: Seq<SaveStepView> = seq![
        SaveStepView::Encode,
        SaveStepView::Write(temporary_path(path)),
        SaveStepView::Rename(temporary_path(path), path),
    ];
    match parent {
        Some(directory) => if directory.len() > 0 {
            seq![SaveStepView::CreateDirectory(directory)] + replacement
        } else {
            replacement
        },
        None => replacement,
    }
}

/// What each step of the sequence says.
pub open spec fn step_views(steps: Seq<SaveStep>) -> Seq<SaveStepView> {
    Seq::new(steps.len(), |i: int| steps[i]@)
}

/// The steps that save the state at `path`, to be taken in turn until one fails. The bytes go
/// to a temporary file in the same directory, which is then renamed, so that a loss of power
/// half way leaves the file as it was.
pub fn save_state(path: &Vec<u8>, parent: Option<&Vec<u8>>) -> (r: Vec<SaveStep>)
    ensures
        step_views(r@) == save_plan(
            path@,
            match parent {
                Some(directory) => Some(directory@),
                None => None,
            },
        ),
{
    let mut steps: Vec<SaveStep> = Vec::new();
    if let Some(directory) = parent {
        if directory.len() > 0 {
            steps.push(SaveStep::CreateDirectory(copy_path(directory)));
        }
    }
    let suffix: Vec<u8> = slice_to_vec(".tmp".as_bytes());
    steps.push(SaveStep::Encode);
    steps.push(SaveStep::Write(concat_path(path, &suffix)));
    steps.push(SaveStep::Rename(concat_path(path, &suffix), copy_path(path)));
    proof {
        let directory = match parent {
            Some(directory) => Some(directory@),
            None => None,
        };
        assert(step_views(steps@) =~= save_plan(path@, directory));
    }
    steps
}

/// The same path.
pub(crate) fn copy_path(path: &Vec<u8>) -> (r: Vec<u8>)
    ensures
        r@ == path@,
{
    let r: Vec<u8> = path.clone();
    assert(r@ =~= path@);
    r
}

/// The bytes of `start` and then those of `end`.
fn concat_path(start: &Vec<u8>, end: &Vec<u8>) -> (r: Vec<u8>)
    ensures
        r@ == start@ + end@,
{
    let mut joined: Vec<u8> = copy_path(start);
    let mut rest: Vec<u8> = copy_path(end);
    joined.append(&mut rest);
    joined
}

/// The byte that parts the entries of a list of directories.
pub const COLON: u8 = 0x3a;

/// The byte that parts the names in a path.
pub const SLASH: u8 = 0x2f;

/// The path of `name` in `directory`.
pub open spec fn joined_path(directory: Seq<u8>, name: Seq<u8>) -> Seq<u8> {
    if directory.len() == 0 || directory.last() == SLASH {
        directory + name
    } else {
        directory.push(SLASH) + name
    }
}

/// The bytes from `from` to `to` are the first entry of the colon-separated `list` that is not
/// empty.
pub open spec fn is_first_entry(list: Seq<u8>, from: int, to: int) -> bool {
    &&& 0 <= from < to <= list.len()
    &&& forall|i: int| 0 <= i < from ==> #[trigger] list[i] == COLON
    &&& forall|i: int| from <= i < to ==> #[trigger] list[i] != COLON
    &&& to == list.len() || list[to] == COLON
}

/// `path` is that of the alarms file in the first directory of the colon-separated `list`.
pub open spec fn is_in_first_entry(list: Seq<u8>, path: Seq<u8>) -> bool {
    exists|from: int, to: int| #[trigger]
        is_first_entry(list, from, to) && path == joined_path(
            list.subrange(from, to),
            "alarms.json".spec_bytes(),
        )
}

/// No entry of the colon-separated `list` is anything but empty.
pub open spec fn has_no_entry(list: Seq<u8>) -> bool {
    forall|i: int| 0 <= i < list.len() ==> #[trigger] list[i] == COLON
}

/// The place of the alarms file under the user's directory for state, or under the current
/// directory where there is none.
pub open spec fn place_under(state_home: Option<Seq<u8>>) -> Seq<u8> {
    let home: Seq<u8> = match state_home {
        Some(directory) => directory,
        None => ".".spec_bytes(),
    };
    joined_path(
        joined_path(home, "eager-alarm-edge".spec_bytes()),
        "alarms.json".spec_bytes(),
    )
}

/// `path` is the default place of the alarms file. `state_directory` is the colon-separated
/// list of directories that the service manager made for the service, and `state_home` the
/// user's directory for state.
pub open spec fn is_default_alarms_file(
    state_directory: Option<Seq<u8>>,
    state_home: Option<Seq<u8>>,
    path: Seq<u8>,
) -> bool {
    match state_directory {
        Some(list) => is_in_first_entry(list, path) || (has_no_entry(list) && path == place_under(
            state_home,
        )),
        None => path == place_under(state_home),
    }
}

/// The path of `name` in `directory`.
fn join_path(directory: &Vec<u8>, name: &Vec<u8>) -> (r: Vec<u8>)
    ensures
        r@ == joined_path(directory@, name@),
{
    if directory.len() == 0 || directory[directory.len() - 1] == SLASH {
        concat_path(directory, name)
    } else {
        let mut parent: Vec<u8> = copy_path(directory);
        parent.push(SLASH);
        concat_path(&parent, name)
    }
}

/// The first entry of the colon-separated `list` that is not empty.
fn first_entry(list: &Vec<u8>) -> (r: Option<Vec<u8>>)
    ensures
        match r {
            Some(entry) => exists|from: int, to: int| #[trigger]
                is_first_entry(list@, from, to) && entry@ == list@.subrange(from, to),
            None => forall|i: int| 0 <= i < list@.len() ==> #[trigger] list@[i] == COLON,
        },
{
    let mut from: usize = 0;
    while from < list.len() && list[from] == COLON
        invariant
            from <= list@.len(),
            forall|i: int| 0 <= i < from ==> #[trigger] list@[i] == COLON,
        decreases list.len() - from,
    {
        from = from + 1;
    }
    if from == list.len() {
        return None;
    }
    let mut to: usize = from;
    let mut entry: Vec<u8> = Vec::new();
    while to < list.len() && list[to] != COLON
        invariant
            from <= to <= list@.len(),
            entry@ == list@.subrange(from as int, to as int),
            forall|i: int| from <= i < to ==> #[trigger] list@[i] != COLON,
        decreases list.len() - to,
    {
        entry.push(list[to]);
        to = to + 1;
        assert(entry@ =~= list@.subrange(from as int, to as int));
    }
    assert(from < to);
    assert(is_first_entry(list@, from as int, to as int));
    Some(entry)
}

/// The default place of the alarms file: in the first directory that the service manager names
/// in `state_directory`, or else under `state_home`, or else under the current directory.
pub fn default_alarms_file(state_directory: Option<&Vec<u8>>, state_home: Option<&Vec<u8>>) -> (r:
    Vec<u8>)
    ensures
        is_default_alarms_file(
            match state_directory {
                Some(list) => Some(list@),
                None => None,
            },
            match state_home {
                Some(directory) => Some(directory@),
                None => None,
            },
            r@,
        ),
{
    let file: Vec<u8> = slice_to_vec("alarms.json".as_bytes());
    if let Some(list) = state_directory {
        if let Some(directory) = first_entry(list) {
            return join_path(&directory, &file);
        }
    }
    let home: Vec<u8> = match state_home {
        Some(directory) => copy_path(directory),
        None => slice_to_vec(".".as_bytes()),
    };
    let name: Vec<u8> = slice_to_vec("eager-alarm-edge".as_bytes());
    join_path(&join_path(&home, &name), &file)
}

} // verus!
