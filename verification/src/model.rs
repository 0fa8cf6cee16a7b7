//! The list state as plain mathematics: what is shown, what is selected, and
//! what each operation makes of a state.

use crate::folder::FolderView;
use vstd::prelude::*;

verus! {

/// Whether any deletion is under way.
#[derive(Clone, Copy, Debug, PartialEq, Eq, Structural)]
pub enum Status {
    /// No entry is being deleted.
    Idle,
    /// At least one entry is being deleted.
    Deleting,
}

/// Which way the selection moves.
#[derive(Clone, Copy, Debug, PartialEq, Eq, Structural)]
pub enum Direction {
    Up,
    Down,
}

/// How a deletion ended: `Ok`, or `Err` with a message for the operator.
pub type Outcome = Result<(), Seq<char>>;

/// The entries that no deletion has claimed.
pub open spec fn is_shown() -> spec_fn(FolderView) -> bool {
    |f: FolderView| !f.deleting
}

/// The shown entries of `folders`, in order. The selection counts in this list.
pub open spec fn visible(folders: Seq<FolderView>) -> Seq<FolderView> {
    folders.filter(is_shown())
}

/// How many shown entries stand before position `k` of `folders`.
pub open spec fn shown_before(folders: Seq<FolderView>, k: int) -> nat {
    visible(folders.take(k)).len()
}

/// The position in `folders` of the shown entry number `i`.
pub open spec fn raw_index(folders: Seq<FolderView>, i: int) -> int
    decreases folders.len(),
{
    if folders.len() == 0 {
        0
    } else if !folders.last().deleting && visible(folders.drop_last()).len() == i {
        folders.len() - 1
    } else {
        raw_index(folders.drop_last(), i)
    }
}

/// No two entries have the same path.
pub open spec fn distinct_paths(folders: Seq<FolderView>) -> bool {
    forall|i: int, j: int|
        0 <= i < j < folders.len() ==> (#[trigger] folders[i]).path != (#[trigger] folders[j]).path
}

/// Some entry of `folders` has the path `path`.
pub open spec fn has_path(folders: Seq<FolderView>, path: Seq<char>) -> bool {
    exists|k: int| 0 <= k < folders.len() && (#[trigger] folders[k]).path == path
}

/// Some entry of `folders` has the path `path` and is being deleted.
pub open spec fn in_flight(folders: Seq<FolderView>, path: Seq<char>) -> bool {
    exists|k: int|
        0 <= k < folders.len() && (#[trigger] folders[k]).path == path && folders[k].deleting
}

/// `Deleting` exactly when some entry of `folders` is being deleted.
pub open spec fn status_of(folders: Seq<FolderView>) -> Status {
    if visible(folders).len() < folders.len() {
        Status::Deleting
    } else {
        Status::Idle
    }
}

/// `x`, moved into `lo ..= hi` by the shortest way.
pub open spec fn clamp(x: int, lo: int, hi: int) -> int {
    if x < lo {
        lo
    } else if x > hi {
        hi
    } else {
        x
    }
}

/// The selection that a list of `shown` entries keeps of `selection`: none for
/// an empty list, else the same index, held inside the list.
pub open spec fn clamp_selection(selection: Option<nat>, shown: nat) -> Option<nat> {
    if shown == 0 {
        None
    } else {
        match selection {
            Some(i) => Some(clamp(i as int, 0, shown - 1) as nat),
            None => Some(0),
        }
    }
}

/// `f`, claimed by a deletion.
pub open spec fn marked(f: FolderView) -> FolderView {
    FolderView { deleting: true, ..f }
}

/// `f`, shown again.
pub open spec fn unmarked(f: FolderView) -> FolderView {
    FolderView { deleting: false, ..f }
}

/// `folders` without the entry at `path`.
pub open spec fn without_path(folders: Seq<FolderView>, path: Seq<char>) -> Seq<FolderView> {
    folders.filter(|f: FolderView| f.path != path)
}

/// `folders` with the entry at `path` shown again.
pub open spec fn restored(folders: Seq<FolderView>, path: Seq<char>) -> Seq<FolderView> {
    folders.map_values(
        |f: FolderView|
            if f.path == path {
                unmarked(f)
            } else {
                f
            },
    )
}

/// One operation on the list state, as the listener or a worker performs it
/// under the lock.
pub enum Operation {
    /// A step of the selection.
    Move(Direction),
    /// A claim on the shown entry of this number.
    Begin(nat),
    /// The end of the deletion at a path.
    Complete(Seq<char>, Outcome),
}

/// The whole list state.
pub struct AppStateView {
    /// Every listed entry, in the order of discovery.
    pub folders: Seq<FolderView>,
    /// An index into `visible(folders)`, or none while nothing is shown.
    pub selection: Option<nat>,
    pub status: Status,
    /// What the latest failed deletion reported.
    pub last_error: Option<Seq<char>>,
}

impl AppStateView {
    /// The invariant of the list state: paths are unique, the status tells
    /// whether a deletion is under way, and the selection points at a shown
    /// entry whenever there is one.
    pub open spec fn wf(self) -> bool {
        &&& distinct_paths(self.folders)
        &&& self.status == status_of(self.folders)
        &&& match self.selection {
            Some(i) => i < visible(self.folders).len(),
            None => visible(self.folders).len() == 0,
        }
    }

    /// The state at startup, made of what the scan found.
    pub open spec fn initial(folders: Seq<FolderView>) -> AppStateView {
        AppStateView {
            folders,
            selection: clamp_selection(Some(0), visible(folders).len()),
            status: status_of(folders),
            last_error: None,
        }
    }

    /// The shown entries.
    pub open spec fn shown(self) -> Seq<FolderView> {
        visible(self.folders)
    }

    /// One step of the selection. It stops at either end of the shown list,
    /// and without a shown entry nothing changes.
    pub open spec fn move_selection(self, direction: Direction) -> AppStateView {
        let n = self.shown().len();
        if n == 0 {
            self
        } else {
            let current: int = match self.selection {
                Some(i) => i as int,
                None => 0,
            };
            let wanted = match direction {
                Direction::Up => current - 1,
                Direction::Down => current + 1,
            };
            AppStateView { selection: Some(clamp(wanted, 0, n - 1) as nat), ..self }
        }
    }

    /// A run of selection steps, taken one after the other.
    pub open spec fn move_many(self, steps: Seq<Direction>) -> AppStateView
        decreases steps.len(),
    {
        if steps.len() == 0 {
            self
        } else {
            self.move_many(steps.drop_last()).move_selection(steps.last())
        }
    }

    /// The shown entry number `i` is claimed by a deletion and leaves the
    /// shown list in the same step.
    pub open spec fn begin_delete(self, i: int) -> AppStateView
        recommends
            0 <= i < self.shown().len(),
    {
        let k = raw_index(self.folders, i);
        let folders = self.folders.update(k, marked(self.folders[k]));
        AppStateView {
            folders,
            selection: clamp_selection(self.selection, visible(folders).len()),
            status: Status::Deleting,
            last_error: self.last_error,
        }
    }

    /// The state after one operation. A claim on an entry that is not shown
    /// changes nothing.
    pub open spec fn apply(self, op: Operation) -> AppStateView {
        match op {
            Operation::Move(direction) => self.move_selection(direction),
            Operation::Begin(i) => if i < self.shown().len() {
                self.begin_delete(i as int)
            } else {
                self
            },
            Operation::Complete(path, outcome) => self.complete_delete(path, outcome),
        }
    }

    /// The state after a run of operations, in whatever order the listener
    /// and the workers got the lock.
    pub open spec fn run(self, ops: Seq<Operation>) -> AppStateView
        decreases ops.len(),
    {
        if ops.len() == 0 {
            self
        } else {
            self.run(ops.drop_last()).apply(ops.last())
        }
    }

    /// The deletion of `path` has ended. After a success its entry is gone.
    /// After a failure the entry is shown again and the message is kept.
    pub open spec fn complete_delete(self, path: Seq<char>, outcome: Outcome) -> AppStateView {
        match outcome {
            Ok(_) => {
                let folders = without_path(self.folders, path);
                AppStateView {
                    folders,
                    selection: clamp_selection(self.selection, visible(folders).len()),
                    status: status_of(folders),
                    last_error: self.last_error,
                }
            },
            Err(message) => {
                let folders = restored(self.folders, path);
                AppStateView {
                    folders,
                    selection: clamp_selection(self.selection, visible(folders).len()),
                    status: status_of(folders),
                    last_error: Some(message),
                }
            },
        }
    }
}

} // verus!
