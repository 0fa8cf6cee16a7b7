//! What holds of the list state whatever the operator and the workers do.

use crate::folder::FolderView;
use crate::lemmas::{
    lemma_raw_index, lemma_restored_found, lemma_shown_before_bound, lemma_status_of,
    lemma_visible_mark, lemma_visible_remove, lemma_visible_unmark, lemma_without_path_absent,
    lemma_without_path_found,
};
use crate::model::{
    distinct_paths, has_path, in_flight, marked, raw_index, restored, shown_before, unmarked,
    without_path, AppStateView, Direction, Operation, Outcome, Status,
};
use vstd::prelude::*;

verus! {

/// The state at startup is well formed when the scan found no path twice.
pub proof fn lemma_initial_is_wf(folders: Seq<FolderView>)
    requires
        distinct_paths(folders),
    ensures
        AppStateView::initial(folders).wf(),
{
}

/// A step of the selection keeps the invariant, and changes the selection
/// only.
pub proof fn lemma_move_selection_keeps_wf(s: AppStateView, direction: Direction)
    requires
        s.wf(),
    ensures
        s.move_selection(direction).wf(),
        s.move_selection(direction).folders == s.folders,
        s.move_selection(direction).status == s.status,
        s.move_selection(direction).last_error == s.last_error,
{
}

/// Claiming a shown entry keeps the invariant.
pub proof fn lemma_begin_delete_keeps_wf(s: AppStateView, i: int)
    requires
        s.wf(),
        0 <= i < s.shown().len(),
    ensures
        s.begin_delete(i).wf(),
{
    lemma_raw_index(s.folders, i);
    let k = raw_index(s.folders, i);
    lemma_visible_mark(s.folders, k);
    let after = s.folders.update(k, marked(s.folders[k]));
    lemma_shown_before_bound(s.folders, k);
    assert(distinct_paths(after)) by {
        assert forall|a: int, b: int| 0 <= a < b < after.len() implies (#[trigger] after[a]).path
            != (#[trigger] after[b]).path by {
            assert(after[a].path == s.folders[a].path);
            assert(after[b].path == s.folders[b].path);
        }
    }
}

/// Dropping a path keeps the paths unique.
pub proof fn lemma_without_path_distinct(folders: Seq<FolderView>, path: Seq<char>)
    requires
        distinct_paths(folders),
    ensures
        distinct_paths(without_path(folders, path)),
        !has_path(without_path(folders, path), path),
{
    if has_path(folders, path) {
        let k = choose|k: int| 0 <= k < folders.len() && (#[trigger] folders[k]).path == path;
        lemma_without_path_found(folders, path, k);
        let after = folders.remove(k);
        assert forall|a: int, b: int| 0 <= a < b < after.len() implies (#[trigger] after[a]).path
            != (#[trigger] after[b]).path by {
            let a0 = if a < k {
                a
            } else {
                a + 1
            };
            let b0 = if b < k {
                b
            } else {
                b + 1
            };
            assert(after[a] == folders[a0]);
            assert(after[b] == folders[b0]);
        }
        assert forall|j: int| 0 <= j < after.len() implies (#[trigger] after[j]).path != path by {
            let j0 = if j < k {
                j
            } else {
                j + 1
            };
            assert(after[j] == folders[j0]);
            if j0 < k {
                assert(folders[j0].path != folders[k].path);
            } else {
                assert(folders[k].path != folders[j0].path);
            }
        }
    } else {
        lemma_without_path_absent(folders, path);
    }
}

/// Showing a path again keeps the paths unique.
pub proof fn lemma_restored_distinct(folders: Seq<FolderView>, path: Seq<char>)
    requires
        distinct_paths(folders),
    ensures
        distinct_paths(restored(folders, path)),
{
    let after = restored(folders, path);
    assert forall|a: int, b: int| 0 <= a < b < after.len() implies (#[trigger] after[a]).path != (
    #[trigger] after[b]).path by {
        assert(after[a].path == folders[a].path);
        assert(after[b].path == folders[b].path);
    }
}

/// Recording how a deletion ended keeps the invariant.
pub proof fn lemma_complete_delete_keeps_wf(s: AppStateView, path: Seq<char>, outcome: Outcome)
    requires
        s.wf(),
    ensures
        s.complete_delete(path, outcome).wf(),
{
    match outcome {
        Ok(_) => {
            lemma_without_path_distinct(s.folders, path);
        },
        Err(_) => {
            lemma_restored_distinct(s.folders, path);
        },
    }
}

/// However the operator moves the selection, it stays on a shown entry, and
/// nothing but the selection changes. Where nothing is shown, nothing changes
/// at all.
pub proof fn selection_stays_in_range(s: AppStateView, steps: Seq<Direction>)
    requires
        s.wf(),
    ensures
        s.move_many(steps).wf(),
        s.move_many(steps).folders == s.folders,
        s.move_many(steps).status == s.status,
        s.move_many(steps).last_error == s.last_error,
        s.shown().len() > 0 ==> s.move_many(steps).selection is Some && s.move_many(
            steps,
        ).selection->0 < s.shown().len(),
        s.shown().len() == 0 ==> s.move_many(steps) == s,
    decreases steps.len(),
{
    if steps.len() > 0 {
        selection_stays_in_range(s, steps.drop_last());
        lemma_move_selection_keeps_wf(s.move_many(steps.drop_last()), steps.last());
    }
}

/// A step beyond either end of the shown list changes nothing, however often
/// it is taken.
pub proof fn move_past_an_end_changes_nothing(s: AppStateView)
    requires
        s.wf(),
    ensures
        s.selection == Some(0nat) ==> s.move_selection(Direction::Up) == s,
        s.shown().len() > 0 && s.selection == Some((s.shown().len() - 1) as nat)
            ==> s.move_selection(Direction::Down) == s,
        s.selection is None ==> s.move_selection(Direction::Up) == s && s.move_selection(
            Direction::Down,
        ) == s,
{
}

/// A claimed entry leaves the shown list in the step that claims it: the
/// state after `begin_delete` shows one entry less, the others in their
/// order, and whichever way the selection moves next, it lands on one of
/// them.
pub proof fn claimed_entry_is_hidden_at_once(s: AppStateView, i: int, next: Direction)
    requires
        s.wf(),
        0 <= i < s.shown().len(),
    ensures
        s.begin_delete(i).wf(),
        s.begin_delete(i).shown() == s.shown().remove(i),
        s.begin_delete(i).shown().len() == s.shown().len() - 1,
        s.begin_delete(i).status == Status::Deleting,
        in_flight(s.begin_delete(i).folders, s.shown()[i].path),
        s.begin_delete(i).move_selection(next).wf(),
        s.begin_delete(i).move_selection(next).shown() == s.shown().remove(i),
{
    lemma_begin_delete_keeps_wf(s, i);
    lemma_raw_index(s.folders, i);
    let k = raw_index(s.folders, i);
    lemma_visible_mark(s.folders, k);
    let after = s.folders.update(k, marked(s.folders[k]));
    assert(after[k].path == s.shown()[i].path && after[k].deleting);
    lemma_move_selection_keeps_wf(s.begin_delete(i), next);
}

/// An entry that a deletion has claimed cannot be claimed again: no shown
/// entry has its path, so `begin_delete` hands that path to no second worker.
pub proof fn claimed_entry_is_not_claimed_again(s: AppStateView, path: Seq<char>, i: int)
    requires
        s.wf(),
        in_flight(s.folders, path),
        0 <= i < s.shown().len(),
    ensures
        s.shown()[i].path != path,
        in_flight(s.begin_delete(i).folders, path),
{
    lemma_raw_index(s.folders, i);
    let k = raw_index(s.folders, i);
    let c = choose|c: int|
        0 <= c < s.folders.len() && (#[trigger] s.folders[c]).path == path && s.folders[c].deleting;
    if c < k {
        assert(s.folders[c].path != s.folders[k].path);
    } else if k < c {
        assert(s.folders[k].path != s.folders[c].path);
    }
    let after = s.folders.update(k, marked(s.folders[k]));
    assert(after[c].path == path && after[c].deleting);
}

/// A claim lasts until its own deletion ends: steps of the selection and the
/// end of a deletion at another path leave the entry listed and claimed.
pub proof fn claim_outlasts_other_operations(
    s: AppStateView,
    path: Seq<char>,
    step: Direction,
    other: Seq<char>,
    outcome: Outcome,
)
    requires
        s.wf(),
        in_flight(s.folders, path),
        other != path,
    ensures
        in_flight(s.move_selection(step).folders, path),
        in_flight(s.complete_delete(other, outcome).folders, path),
{
    let c = choose|c: int|
        0 <= c < s.folders.len() && (#[trigger] s.folders[c]).path == path && s.folders[c].deleting;
    match outcome {
        Ok(_) => {
            if has_path(s.folders, other) {
                let k = choose|k: int|
                    0 <= k < s.folders.len() && (#[trigger] s.folders[k]).path == other;
                lemma_without_path_found(s.folders, other, k);
                let after = s.folders.remove(k);
                let c1 = if c < k {
                    c
                } else {
                    c - 1
                };
                assert(after[c1] == s.folders[c]);
            } else {
                lemma_without_path_absent(s.folders, other);
            }
        },
        Err(_) => {
            let after = restored(s.folders, other);
            assert(after[c] == s.folders[c]);
        },
    }
}

/// The deletion of a listed path ends in exactly one of two ways. After a
/// success the entry is gone and no error is recorded. After a failure the
/// error is recorded and the entry is still listed, shown and unclaimed.
pub proof fn deletion_ends_one_way(s: AppStateView, path: Seq<char>, outcome: Outcome)
    requires
        s.wf(),
        has_path(s.folders, path),
    ensures
        s.complete_delete(path, outcome).wf(),
        outcome is Ok ==> !has_path(s.complete_delete(path, outcome).folders, path)
            && s.complete_delete(path, outcome).last_error == s.last_error,
        outcome is Err ==> has_path(s.complete_delete(path, outcome).folders, path) && !in_flight(
            s.complete_delete(path, outcome).folders,
            path,
        ) && s.complete_delete(path, outcome).last_error == Some(outcome->Err_0),
        s.complete_delete(path, outcome).folders.len() == if outcome is Ok {
            s.folders.len() - 1
        } else {
            s.folders.len() as int
        },
{
    lemma_complete_delete_keeps_wf(s, path, outcome);
    let k = choose|k: int| 0 <= k < s.folders.len() && (#[trigger] s.folders[k]).path == path;
    match outcome {
        Ok(_) => {
            lemma_without_path_distinct(s.folders, path);
            lemma_without_path_found(s.folders, path, k);
        },
        Err(_) => {
            lemma_restored_distinct(s.folders, path);
            let after = restored(s.folders, path);
            assert(after[k].path == path);
            assert forall|j: int| 0 <= j < after.len() && (#[trigger] after[j]).path
                == path implies !after[j].deleting by {
            }
        },
    }
}

/// A deletion that succeeds changes nothing that the operator sees: the
/// entry was hidden when it was claimed, so the shown list and the selection
/// stay as they are.
pub proof fn success_leaves_the_shown_list_alone(s: AppStateView, path: Seq<char>)
    requires
        s.wf(),
        in_flight(s.folders, path),
    ensures
        s.complete_delete(path, Ok(())).shown() == s.shown(),
        s.complete_delete(path, Ok(())).selection == s.selection,
{
    let k = choose|k: int|
        0 <= k < s.folders.len() && (#[trigger] s.folders[k]).path == path && s.folders[k].deleting;
    lemma_without_path_found(s.folders, path, k);
    lemma_visible_remove(s.folders, k);
}

/// A deletion that fails puts the entry back where it stood in the shown
/// list, between the same neighbours as before it was claimed.
pub proof fn failure_shows_the_entry_again(s: AppStateView, path: Seq<char>, message: Seq<char>)
    requires
        s.wf(),
        in_flight(s.folders, path),
    ensures
        s.complete_delete(path, Err(message)).shown().len() == s.shown().len() + 1,
        exists|k: int|
            0 <= k < s.folders.len() && (#[trigger] s.folders[k]).path == path && s.complete_delete(
                path,
                Err(message),
            ).shown() == s.shown().insert(shown_before(s.folders, k) as int, unmarked(s.folders[k])),
{
    let k = choose|k: int|
        0 <= k < s.folders.len() && (#[trigger] s.folders[k]).path == path && s.folders[k].deleting;
    lemma_restored_found(s.folders, path, k);
    lemma_visible_unmark(s.folders, k);
}

/// One operation keeps the invariant, and lists no path that was not listed
/// before.
pub proof fn lemma_apply_keeps_wf(s: AppStateView, op: Operation)
    requires
        s.wf(),
    ensures
        s.apply(op).wf(),
        forall|p: Seq<char>| has_path(s.apply(op).folders, p) ==> has_path(s.folders, p),
{
    let t = s.apply(op);
    match op {
        Operation::Move(direction) => {
            lemma_move_selection_keeps_wf(s, direction);
        },
        Operation::Begin(i) => {
            if i < s.shown().len() {
                lemma_begin_delete_keeps_wf(s, i as int);
                lemma_raw_index(s.folders, i as int);
                assert forall|p: Seq<char>| has_path(t.folders, p) implies has_path(
                    s.folders,
                    p,
                ) by {
                    let k = choose|k: int|
                        0 <= k < t.folders.len() && (#[trigger] t.folders[k]).path == p;
                    assert(s.folders[k].path == p);
                }
            }
        },
        Operation::Complete(path, outcome) => {
            lemma_complete_delete_keeps_wf(s, path, outcome);
            assert forall|p: Seq<char>| has_path(t.folders, p) implies has_path(
                s.folders,
                p,
            ) by {
                let k = choose|k: int|
                    0 <= k < t.folders.len() && (#[trigger] t.folders[k]).path == p;
                match outcome {
                    Ok(_) => {
                        if has_path(s.folders, path) {
                            let r = choose|r: int|
                                0 <= r < s.folders.len() && (#[trigger] s.folders[r]).path == path;
                            lemma_without_path_found(s.folders, path, r);
                            let k0 = if k < r {
                                k
                            } else {
                                k + 1
                            };
                            assert(s.folders[k0] == t.folders[k]);
                        } else {
                            lemma_without_path_absent(s.folders, path);
                            assert(s.folders[k].path == p);
                        }
                    },
                    Err(_) => {
                        assert(s.folders[k].path == p);
                    },
                }
            }
        },
    }
}

/// In whatever order the listener and the workers get the lock, and whatever
/// they do with it, the invariant holds after every step: paths stay unique,
/// the status tells whether a deletion is under way, and the selection
/// points at a shown entry whenever there is one. No run adds an entry to
/// the list.
pub proof fn every_run_keeps_the_invariant(s: AppStateView, ops: Seq<Operation>)
    requires
        s.wf(),
    ensures
        s.run(ops).wf(),
        forall|p: Seq<char>| has_path(s.run(ops).folders, p) ==> has_path(s.folders, p),
        s.run(ops).folders.len() <= s.folders.len(),
    decreases ops.len(),
{
    if ops.len() > 0 {
        let before = s.run(ops.drop_last());
        every_run_keeps_the_invariant(s, ops.drop_last());
        lemma_apply_keeps_wf(before, ops.last());
        lemma_apply_never_grows(before, ops.last());
    }
}

/// One operation leaves the list as long as it was, or one entry shorter.
pub proof fn lemma_apply_never_grows(s: AppStateView, op: Operation)
    requires
        s.wf(),
    ensures
        s.apply(op).folders.len() <= s.folders.len(),
{
    match op {
        Operation::Complete(path, Ok(_)) => {
            if has_path(s.folders, path) {
                let r = choose|r: int|
                    0 <= r < s.folders.len() && (#[trigger] s.folders[r]).path == path;
                lemma_without_path_found(s.folders, path, r);
            } else {
                lemma_without_path_absent(s.folders, path);
            }
        },
        Operation::Begin(i) => {
            if i < s.shown().len() {
                lemma_raw_index(s.folders, i as int);
            }
        },
        _ => {},
    }
}

/// An entry that a deletion has claimed stays listed and claimed, whatever
/// else happens, until the end of that very deletion is recorded.
pub proof fn a_claim_lasts_until_its_deletion_ends(
    s: AppStateView,
    path: Seq<char>,
    ops: Seq<Operation>,
)
    requires
        s.wf(),
        in_flight(s.folders, path),
        forall|k: int|
            0 <= k < ops.len() ==> !((#[trigger] ops[k]) matches Operation::Complete(p, _) && p
                == path),
    ensures
        s.run(ops).wf(),
        in_flight(s.run(ops).folders, path),
    decreases ops.len(),
{
    every_run_keeps_the_invariant(s, ops);
    if ops.len() > 0 {
        let front = ops.drop_last();
        assert forall|k: int| 0 <= k < front.len() implies !((
        #[trigger] front[k]) matches Operation::Complete(p, _) && p == path) by {
            assert(front[k] == ops[k]);
        }
        a_claim_lasts_until_its_deletion_ends(s, path, front);
        let before = s.run(front);
        every_run_keeps_the_invariant(s, front);
        assert(ops.last() == ops[ops.len() - 1]);
        match ops.last() {
            Operation::Move(direction) => {
                lemma_move_selection_keeps_wf(before, direction);
            },
            Operation::Begin(i) => {
                if i < before.shown().len() {
                    claimed_entry_is_not_claimed_again(before, path, i as int);
                }
            },
            Operation::Complete(other, outcome) => {
                claim_outlasts_other_operations(before, path, Direction::Up, other, outcome);
            },
        }
    }
}

/// When the last deletion under way ends, the status is `Idle` again,
/// whichever way it ended.
pub proof fn status_returns_to_idle(s: AppStateView, path: Seq<char>, outcome: Outcome)
    requires
        s.wf(),
        in_flight(s.folders, path),
        forall|j: int|
            0 <= j < s.folders.len() && (#[trigger] s.folders[j]).deleting ==> s.folders[j].path
                == path,
    ensures
        s.complete_delete(path, outcome).status == Status::Idle,
{
    let t = s.complete_delete(path, outcome);
    lemma_status_of(t.folders);
    let k = choose|k: int|
        0 <= k < s.folders.len() && (#[trigger] s.folders[k]).path == path && s.folders[k].deleting;
    match outcome {
        Ok(_) => {
            lemma_without_path_found(s.folders, path, k);
            assert forall|j: int| 0 <= j < t.folders.len() implies !(
            #[trigger] t.folders[j]).deleting by {
                let j0 = if j < k {
                    j
                } else {
                    j + 1
                };
                assert(t.folders[j] == s.folders[j0]);
                if j0 < k {
                    assert(s.folders[j0].path != s.folders[k].path);
                } else {
                    assert(s.folders[k].path != s.folders[j0].path);
                }
            }
        },
        Err(_) => {
            assert forall|j: int| 0 <= j < t.folders.len() implies !(
            #[trigger] t.folders[j]).deleting by {
                assert(t.folders[j].path == s.folders[j].path);
            }
        },
    }
}

} // verus!
