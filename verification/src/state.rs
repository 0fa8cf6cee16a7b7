//! The list state that the input listener, the deletion workers and the
//! renderer share, and the operations that change it.
//!
//! Every operation takes the state by `&mut` or `&`, so whoever holds the one
//! lock around it sees each of them as a single step.

use crate::folder::{folder_views, Folder, FolderView};
use crate::laws::{
    lemma_begin_delete_keeps_wf, lemma_complete_delete_keeps_wf, lemma_initial_is_wf,
};
use crate::layout::well_laid_out;
use crate::lemmas::{
    lemma_raw_index, lemma_raw_index_unique, lemma_restored_absent, lemma_restored_found,
    lemma_visible_empty, lemma_visible_take_next, lemma_without_path_absent,
    lemma_without_path_found,
};
use crate::model::{
    clamp_selection, distinct_paths, has_path, marked, raw_index, shown_before, status_of,
    unmarked, visible, AppStateView, Direction, Outcome, Status,
};
use crate::search::{find_target_folders, scan};
use crate::tree::Entry;
use vstd::prelude::*;

verus! {

/// A selection as the model counts it.
pub open spec fn selection_view(selection: Option<usize>) -> Option<nat> {
    match selection {
        Some(i) => Some(i as nat),
        None => None,
    }
}

/// A message as the model holds it.
pub open spec fn message_view(message: Option<String>) -> Option<Seq<char>> {
    match message {
        Some(m) => Some(m@),
        None => None,
    }
}

/// How a deletion ended, as the model holds it.
pub open spec fn outcome_view(outcome: Result<(), String>) -> Outcome {
    match outcome {
        Ok(_) => Ok(()),
        Err(m) => Err(m@),
    }
}

/// The number of shown entries.
pub fn count_shown(folders: &Vec<Folder>) -> (n: usize)
    ensures
        n == visible(folder_views(folders@)).len(),
{
    let ghost views = folder_views(folders@);
    let mut n: usize = 0;
    let mut k: usize = 0;
    proof {
        lemma_visible_empty();
        assert(views.take(0) == Seq::<FolderView>::empty());
    }
    while k < folders.len()
        invariant
            k <= folders.len(),
            views == folder_views(folders@),
            n == shown_before(views, k as int),
            n <= k,
        decreases folders.len() - k,
    {
        proof {
            lemma_visible_take_next(views, k as int);
        }
        if !folders[k].deleting {
            n = n + 1;
        }
        k = k + 1;
    }
    proof {
        assert(views.take(k as int) == views);
    }
    n
}

/// The position of the shown entry number `index`, if there is one.
pub fn find_shown(folders: &Vec<Folder>, index: usize) -> (r: Option<usize>)
    ensures
        match r {
            Some(k) => index < visible(folder_views(folders@)).len() && k == raw_index(
                folder_views(folders@),
                index as int,
            ) && k < folders.len(),
            None => index >= visible(folder_views(folders@)).len(),
        },
{
    let ghost views = folder_views(folders@);
    let mut seen: usize = 0;
    let mut k: usize = 0;
    proof {
        lemma_visible_empty();
        assert(views.take(0) == Seq::<FolderView>::empty());
    }
    while k < folders.len()
        invariant
            k <= folders.len(),
            views == folder_views(folders@),
            seen == shown_before(views, k as int),
            seen <= k,
            seen <= index,
        decreases folders.len() - k,
    {
        proof {
            lemma_visible_take_next(views, k as int);
        }
        if !folders[k].deleting {
            if seen == index {
                proof {
                    lemma_raw_index_unique(views, index as int, k as int);
                }
                return Some(k);
            }
            seen = seen + 1;
        }
        k = k + 1;
    }
    proof {
        assert(views.take(k as int) == views);
    }
    None
}

/// The position of the first entry at `path`, if there is one.
pub fn find_path(folders: &Vec<Folder>, path: &String) -> (r: Option<usize>)
    ensures
        match r {
            Some(k) => k < folders.len() && folders[k as int].path@ == path@ && forall|j: int|
                0 <= j < k ==> (#[trigger] folders[j]).path@ != path@,
            None => !has_path(folder_views(folders@), path@),
        },
{
    let mut k: usize = 0;
    while k < folders.len()
        invariant
            k <= folders.len(),
            forall|j: int| 0 <= j < k ==> folders[j].path@ != path@,
        decreases folders.len() - k,
    {
        if folders[k].path == *path {
            return Some(k);
        }
        k = k + 1;
    }
    None
}

/// Whether no two entries have the same path.
pub fn paths_are_distinct(folders: &Vec<Folder>) -> (r: bool)
    ensures
        r == distinct_paths(folder_views(folders@)),
{
    let ghost views = folder_views(folders@);
    let mut j: usize = 0;
    while j < folders.len()
        invariant
            j <= folders.len(),
            views == folder_views(folders@),
            forall|a: int, b: int| 0 <= a < b < j ==> views[a].path != views[b].path,
        decreases folders.len() - j,
    {
        let mut i: usize = 0;
        while i < j
            invariant
                i <= j < folders.len(),
                views == folder_views(folders@),
                forall|a: int| 0 <= a < i ==> views[a].path != views[j as int].path,
            decreases j - i,
        {
            if folders[i].path == folders[j].path {
                assert(views[i as int].path == views[j as int].path);
                return false;
            }
            i = i + 1;
        }
        j = j + 1;
    }
    true
}

/// The selection that a list of `shown` entries keeps of `selection`.
fn keep_selection(selection: Option<usize>, shown: usize) -> (r: Option<usize>)
    ensures
        selection_view(r) == clamp_selection(selection_view(selection), shown as nat),
{
    if shown == 0 {
        None
    } else {
        match selection {
            Some(i) => if i < shown {
                Some(i)
            } else {
                Some(shown - 1)
            },
            None => Some(0),
        }
    }
}

/// `Deleting` exactly when some entry is being deleted.
fn status_for(folders: &Vec<Folder>, shown: usize) -> (r: Status)
    requires
        shown == visible(folder_views(folders@)).len(),
    ensures
        r == status_of(folder_views(folders@)),
{
    if shown < folders.len() {
        Status::Deleting
    } else {
        Status::Idle
    }
}

/// The list state: the entries in the order of discovery, the selection
/// among the shown ones, whether a deletion is under way, and what the latest
/// failed deletion reported.
#[derive(Debug, PartialEq, Eq)]
pub struct AppState {
    folders: Vec<Folder>,
    selection: Option<usize>,
    status: Status,
    last_error: Option<String>,
}

impl View for AppState {
    type V = AppStateView;

    closed spec fn view(&self) -> AppStateView {
        AppStateView {
            folders: folder_views(self.folders@),
            selection: selection_view(self.selection),
            status: self.status,
            last_error: message_view(self.last_error),
        }
    }
}

impl AppState {
    /// The invariant that every operation keeps.
    pub open spec fn wf(&self) -> bool {
        self@.wf()
    }

    /// The state at startup, made of what the scan found. Entries that share
    /// a path cannot be told apart later, so such a list is refused.
    pub fn new(folders: Vec<Folder>) -> (r: Option<AppState>)
        ensures
            r is Some <==> distinct_paths(folder_views(folders@)),
            r matches Some(state) ==> state@ == AppStateView::initial(folder_views(folders@))
                && state.wf(),
    {
        if !paths_are_distinct(&folders) {
            return None;
        }
        let shown = count_shown(&folders);
        let selection = keep_selection(Some(0), shown);
        let status = status_for(&folders, shown);
        proof {
            lemma_initial_is_wf(folder_views(folders@));
        }
        Some(AppState { folders, selection, status, last_error: None })
    }

    /// The state at startup, made of a scan of the tree below `root` for the
    /// directories named `target_folder`. A tree that is laid out as a file
    /// system lays it out always gives a state; any other tree gives one
    /// unless the scan finds the same path twice.
    pub fn from_scan(root: &Entry, target_folder: &str) -> (r: Option<AppState>)
        ensures
            r is Some <==> distinct_paths(scan(*root, target_folder@, 0)),
            r matches Some(state) ==> state@ == AppStateView::initial(
                scan(*root, target_folder@, 0),
            ) && state.wf(),
            well_laid_out(*root) ==> r is Some,
    {
        AppState::new(find_target_folders(root, target_folder))
    }

    /// Moves the selection by one entry. It stops at either end of the shown
    /// list, and without a shown entry nothing changes.
    pub fn move_selection(&mut self, direction: Direction)
        requires
            old(self).wf(),
        ensures
            final(self)@ == old(self)@.move_selection(direction),
            final(self).wf(),
    {
        let shown = count_shown(&self.folders);
        if shown == 0 {
            return ;
        }
        let current = match self.selection {
            Some(i) => i,
            None => 0,
        };
        let next = match direction {
            Direction::Up => if current > 0 {
                current - 1
            } else {
                0
            },
            Direction::Down => if current < shown - 1 {
                current + 1
            } else {
                shown - 1
            },
        };
        self.selection = Some(next);
    }

    /// Claims the shown entry number `index` for a deletion and returns a copy
    /// of its path. The entry leaves the shown list in the same step. Without
    /// such an entry nothing changes.
    pub fn begin_delete(&mut self, index: usize) -> (r: Option<String>)
        requires
            old(self).wf(),
        ensures
            final(self).wf(),
            match r {
                Some(path) => index < old(self)@.shown().len() && path@ == old(
                    self,
                )@.shown()[index as int].path && final(self)@ == old(self)@.begin_delete(
                    index as int,
                ),
                None => index >= old(self)@.shown().len() && final(self)@ == old(self)@,
            },
    {
        let ghost before = self@;
        match find_shown(&self.folders, index) {
            None => None,
            Some(k) => {
                proof {
                    lemma_raw_index(before.folders, index as int);
                }
                let path = self.folders[k].path.clone();
                self.folders[k].deleting = true;
                proof {
                    assert(folder_views(self.folders@) == before.folders.update(
                        k as int,
                        marked(before.folders[k as int]),
                    ));
                }
                let shown = count_shown(&self.folders);
                self.selection = keep_selection(self.selection, shown);
                self.status = Status::Deleting;
                proof {
                    lemma_begin_delete_keeps_wf(before, index as int);
                }
                Some(path)
            },
        }
    }

    /// Records how the deletion of `path` ended. After a success the entry at
    /// `path` is gone. After a failure it is shown again and the message is
    /// kept for the operator.
    pub fn complete_delete(&mut self, path: &str, outcome: Result<(), String>)
        requires
            old(self).wf(),
        ensures
            final(self)@ == old(self)@.complete_delete(path@, outcome_view(outcome)),
            final(self).wf(),
    {
        let ghost before = self@;
        let owned = path.to_owned();
        let found = find_path(&self.folders, &owned);
        match outcome {
            Ok(_) => {
                match found {
                    Some(k) => {
                        proof {
                            lemma_without_path_found(before.folders, path@, k as int);
                        }
                        let _ = self.folders.remove(k);
                        proof {
                            assert(folder_views(self.folders@) == before.folders.remove(k as int));
                        }
                    },
                    None => {
                        proof {
                            lemma_without_path_absent(before.folders, path@);
                        }
                    },
                }
            },
            Err(message) => {
                match found {
                    Some(k) => {
                        proof {
                            lemma_restored_found(before.folders, path@, k as int);
                        }
                        self.folders[k].deleting = false;
                        proof {
                            assert(folder_views(self.folders@) == before.folders.update(
                                k as int,
                                unmarked(before.folders[k as int]),
                            ));
                        }
                    },
                    None => {
                        proof {
                            lemma_restored_absent(before.folders, path@);
                        }
                    },
                }
                self.last_error = Some(message);
            },
        }
        let shown = count_shown(&self.folders);
        self.selection = keep_selection(self.selection, shown);
        self.status = status_for(&self.folders, shown);
        proof {
            lemma_complete_delete_keeps_wf(before, path@, outcome_view(outcome));
        }
    }

    /// The shown entries, in order: those that no deletion has claimed.
    pub fn not_deleting_folders(&self) -> (r: Vec<&Folder>)
        ensures
            r@.map_values(|f: &Folder| f@) == self@.shown(),
    {
        let ghost views = folder_views(self.folders@);
        let mut shown: Vec<&Folder> = Vec::new();
        let mut k: usize = 0;
        proof {
            lemma_visible_empty();
            assert(views.take(0) == Seq::<FolderView>::empty());
            assert(shown@.map_values(|f: &Folder| f@) == Seq::<FolderView>::empty());
        }
        while k < self.folders.len()
            invariant
                k <= self.folders.len(),
                views == folder_views(self.folders@),
                shown@.map_values(|f: &Folder| f@) == visible(views.take(k as int)),
            decreases self.folders.len() - k,
        {
            proof {
                lemma_visible_take_next(views, k as int);
            }
            if !self.folders[k].deleting {
                let ghost before = shown@;
                shown.push(&self.folders[k]);
                proof {
                    assert(shown@.map_values(|f: &Folder| f@) == before.map_values(
                        |f: &Folder| f@,
                    ).push(views[k as int]));
                }
            }
            k = k + 1;
        }
        proof {
            assert(views.take(k as int) == views);
        }
        shown
    }

    /// Every listed entry, claimed or not, in the order of discovery.
    pub fn folders(&self) -> (r: &Vec<Folder>)
        ensures
            folder_views(r@) == self@.folders,
    {
        &self.folders
    }

    /// The selection: an index into the shown entries, or none while nothing
    /// is shown.
    pub fn selection(&self) -> (r: Option<usize>)
        ensures
            selection_view(r) == self@.selection,
    {
        self.selection
    }

    /// Whether a deletion is under way.
    pub fn status(&self) -> (r: Status)
        ensures
            r == self@.status,
    {
        self.status
    }

    /// What the latest failed deletion reported.
    pub fn last_error(&self) -> (r: &Option<String>)
        ensures
            message_view(*r) == self@.last_error,
    {
        &self.last_error
    }

    /// Whether nothing is left to delete: no entry is listed any more.
    pub fn is_done(&self) -> (r: bool)
        ensures
            r == (self@.folders.len() == 0),
    {
        self.folders.len() == 0
    }

    /// A copy of the state for the renderer. The state itself stays as it is.
    pub fn snapshot(&self) -> (r: AppState)
        ensures
            r@ == self@,
    {
        let mut folders: Vec<Folder> = Vec::new();
        let mut k: usize = 0;
        while k < self.folders.len()
            invariant
                k <= self.folders.len(),
                folders.len() == k,
                forall|j: int| 0 <= j < k ==> folders[j]@ == self.folders[j]@,
            decreases self.folders.len() - k,
        {
            folders.push(self.folders[k].duplicate());
            k = k + 1;
        }
        proof {
            assert(folder_views(folders@) == folder_views(self.folders@));
        }
        let last_error = match &self.last_error {
            Some(m) => Some(m.clone()),
            None => None,
        };
        AppState { folders, selection: self.selection, status: self.status, last_error }
    }
}

} // verus!
