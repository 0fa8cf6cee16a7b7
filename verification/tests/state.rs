use npkill_rs::folder::Folder;
use npkill_rs::model::{Direction, Status};
use npkill_rs::state::{count_shown, find_path, find_shown, paths_are_distinct, AppState};

fn folder(path: &str) -> Folder {
    Folder { path: path.to_string(), size: Some(1), deleting: false }
}

fn claimed(path: &str) -> Folder {
    Folder { path: path.to_string(), size: None, deleting: true }
}

fn state_of(paths: &[&str]) -> AppState {
    let folders: Vec<Folder> = paths.iter().map(|p| folder(p)).collect();
    AppState::new(folders).unwrap()
}

fn shown_paths(state: &AppState) -> Vec<String> {
    state.not_deleting_folders().iter().map(|f| f.path.clone()).collect()
}

fn all_paths(state: &AppState) -> Vec<String> {
    state.folders().iter().map(|f| f.path.clone()).collect()
}

#[test]
fn new_state_selects_the_first_entry() {
    let state = state_of(&["a", "b", "c"]);
    assert_eq!(state.selection(), Some(0));
    assert_eq!(state.status(), Status::Idle);
    assert_eq!(state.last_error(), &None);
    assert_eq!(all_paths(&state), vec!["a", "b", "c"]);
    assert!(!state.is_done());
}

#[test]
fn new_state_of_nothing_selects_nothing() {
    let state = AppState::new(Vec::new()).unwrap();
    assert_eq!(state.selection(), None);
    assert_eq!(state.status(), Status::Idle);
    assert!(state.is_done());
}

#[test]
fn new_refuses_a_path_listed_twice() {
    assert!(AppState::new(vec![folder("a"), folder("b"), folder("a")]).is_none());
    assert!(AppState::new(vec![folder("a"), folder("a")]).is_none());
    assert!(AppState::new(vec![folder("a"), folder("A")]).is_some());
}

#[test]
fn new_takes_claimed_entries_as_they_are() {
    let state = AppState::new(vec![claimed("a"), folder("b")]).unwrap();
    assert_eq!(state.status(), Status::Deleting);
    assert_eq!(state.selection(), Some(0));
    assert_eq!(shown_paths(&state), vec!["b"]);

    let state = AppState::new(vec![claimed("a")]).unwrap();
    assert_eq!(state.status(), Status::Deleting);
    assert_eq!(state.selection(), None);
    assert!(!state.is_done());
}

#[test]
fn selection_moves_one_entry_at_a_time() {
    let mut state = state_of(&["a", "b", "c"]);
    state.move_selection(Direction::Down);
    assert_eq!(state.selection(), Some(1));
    state.move_selection(Direction::Down);
    assert_eq!(state.selection(), Some(2));
    state.move_selection(Direction::Up);
    assert_eq!(state.selection(), Some(1));
    state.move_selection(Direction::Up);
    assert_eq!(state.selection(), Some(0));
}

#[test]
fn selection_stops_at_both_ends() {
    let mut state = state_of(&["a", "b", "c"]);
    let at_top = state.snapshot();
    state.move_selection(Direction::Up);
    assert_eq!(state, at_top);
    state.move_selection(Direction::Up);
    assert_eq!(state, at_top);

    state.move_selection(Direction::Down);
    state.move_selection(Direction::Down);
    let at_bottom = state.snapshot();
    assert_eq!(at_bottom.selection(), Some(2));
    state.move_selection(Direction::Down);
    assert_eq!(state, at_bottom);
    state.move_selection(Direction::Down);
    assert_eq!(state, at_bottom);
}

#[test]
fn selection_stays_in_range_over_a_long_run() {
    let mut state = state_of(&["a", "b", "c", "d"]);
    let steps = [
        Direction::Down,
        Direction::Down,
        Direction::Up,
        Direction::Down,
        Direction::Down,
        Direction::Down,
        Direction::Down,
        Direction::Up,
        Direction::Up,
        Direction::Up,
        Direction::Up,
        Direction::Up,
        Direction::Down,
    ];
    let expected = [1, 2, 1, 2, 3, 3, 3, 2, 1, 0, 0, 0, 1];
    for (step, want) in steps.iter().zip(expected.iter()) {
        state.move_selection(*step);
        assert_eq!(state.selection(), Some(*want));
        assert_eq!(all_paths(&state), vec!["a", "b", "c", "d"]);
        assert_eq!(state.status(), Status::Idle);
    }
}

#[test]
fn moving_in_an_empty_list_changes_nothing() {
    let mut state = AppState::new(Vec::new()).unwrap();
    state.move_selection(Direction::Down);
    assert_eq!(state.selection(), None);
    state.move_selection(Direction::Up);
    assert_eq!(state.selection(), None);

    let mut state = AppState::new(vec![claimed("a")]).unwrap();
    let before = state.snapshot();
    state.move_selection(Direction::Down);
    assert_eq!(state, before);
}

#[test]
fn begin_delete_hides_the_entry_at_once() {
    let mut state = state_of(&["a", "b", "c"]);
    let path = state.begin_delete(1);
    assert_eq!(path, Some("b".to_string()));
    assert_eq!(shown_paths(&state), vec!["a", "c"]);
    assert_eq!(all_paths(&state), vec!["a", "b", "c"]);
    assert!(state.folders()[1].deleting);
    assert!(!state.folders()[0].deleting);
    assert!(!state.folders()[2].deleting);
    assert_eq!(state.status(), Status::Deleting);
    assert_eq!(state.last_error(), &None);
}

#[test]
fn begin_delete_counts_among_the_shown_entries() {
    let mut state = AppState::new(vec![claimed("a"), folder("b"), claimed("c"), folder("d")])
        .unwrap();
    assert_eq!(state.begin_delete(1), Some("d".to_string()));
    assert_eq!(shown_paths(&state), vec!["b"]);
    assert_eq!(state.begin_delete(0), Some("b".to_string()));
    assert_eq!(shown_paths(&state), Vec::<String>::new());
    assert_eq!(state.selection(), None);
}

#[test]
fn begin_delete_without_such_an_entry_changes_nothing() {
    let mut state = state_of(&["a", "b"]);
    let before = state.snapshot();
    assert_eq!(state.begin_delete(2), None);
    assert_eq!(state, before);
    assert_eq!(state.begin_delete(usize::MAX), None);
    assert_eq!(state, before);

    let mut empty = AppState::new(Vec::new()).unwrap();
    assert_eq!(empty.begin_delete(0), None);
    assert_eq!(empty.status(), Status::Idle);
}

#[test]
fn begin_delete_keeps_the_selection_inside_the_list() {
    let mut state = state_of(&["a", "b", "c"]);
    state.move_selection(Direction::Down);
    state.move_selection(Direction::Down);
    assert_eq!(state.begin_delete(2), Some("c".to_string()));
    assert_eq!(state.selection(), Some(1));
    assert_eq!(state.begin_delete(0), Some("a".to_string()));
    assert_eq!(state.selection(), Some(0));
    assert_eq!(state.begin_delete(0), Some("b".to_string()));
    assert_eq!(state.selection(), None);
}

#[test]
fn a_claimed_path_is_handed_out_once() {
    let mut state = state_of(&["a", "b", "c"]);
    let first = state.begin_delete(0).unwrap();
    assert_eq!(first, "a");
    let mut handed_out = vec![first];
    while let Some(path) = state.begin_delete(0) {
        assert!(!handed_out.contains(&path));
        handed_out.push(path);
    }
    assert_eq!(handed_out, vec!["a", "b", "c"]);
}

#[test]
fn a_single_folder_is_deleted() {
    let mut state = state_of(&["./app/node_modules"]);
    let path = state.begin_delete(state.selection().unwrap()).unwrap();
    assert_eq!(path, "./app/node_modules");
    assert!(state.folders()[0].deleting);
    assert_eq!(shown_paths(&state), Vec::<String>::new());
    assert_eq!(state.status(), Status::Deleting);
    assert!(!state.is_done());

    state.complete_delete(&path, Ok(()));
    assert!(state.folders().is_empty());
    assert!(state.is_done());
    assert_eq!(state.status(), Status::Idle);
    assert_eq!(state.last_error(), &None);
    assert_eq!(state.selection(), None);
}

#[test]
fn a_failed_delete_records_the_error() {
    let mut state = state_of(&["./app/node_modules", "./lib/node_modules"]);
    let path = state.begin_delete(0).unwrap();
    assert_eq!(state.status(), Status::Deleting);

    state.complete_delete(&path, Err("Permission denied (os error 13)".to_string()));
    assert_eq!(state.last_error(), &Some("Permission denied (os error 13)".to_string()));
    assert!(!state.last_error().as_ref().unwrap().is_empty());
    assert_eq!(state.status(), Status::Idle);
    // The entry stays listed and is shown again, at its old place.
    assert_eq!(all_paths(&state), vec!["./app/node_modules", "./lib/node_modules"]);
    assert_eq!(shown_paths(&state), vec!["./app/node_modules", "./lib/node_modules"]);
    assert!(!state.folders()[0].deleting);
}

#[test]
fn moving_while_a_delete_is_under_way() {
    let mut state = state_of(&["./a/node_modules", "./b/node_modules"]);
    let path = state.begin_delete(state.selection().unwrap()).unwrap();
    assert_eq!(path, "./a/node_modules");

    state.move_selection(Direction::Down);
    assert_eq!(state.selection(), Some(0));
    assert_eq!(shown_paths(&state), vec!["./b/node_modules"]);
    state.move_selection(Direction::Up);
    assert_eq!(state.selection(), Some(0));

    state.complete_delete(&path, Ok(()));
    assert_eq!(all_paths(&state), vec!["./b/node_modules"]);
    assert_eq!(state.selection(), Some(0));
    assert_eq!(state.status(), Status::Idle);
}

#[test]
fn a_success_removes_the_entry_and_records_no_error() {
    let mut state = state_of(&["a", "b", "c"]);
    let path = state.begin_delete(1).unwrap();
    state.complete_delete(&path, Ok(()));
    assert_eq!(all_paths(&state), vec!["a", "c"]);
    assert_eq!(state.last_error(), &None);
}

#[test]
fn a_success_leaves_an_earlier_error_in_place() {
    let mut state = state_of(&["a", "b"]);
    let first = state.begin_delete(0).unwrap();
    state.complete_delete(&first, Err("busy".to_string()));
    let second = state.begin_delete(1).unwrap();
    assert_eq!(second, "b");
    state.complete_delete(&second, Ok(()));
    assert_eq!(state.last_error(), &Some("busy".to_string()));
    assert_eq!(all_paths(&state), vec!["a"]);
}

#[test]
fn a_later_error_replaces_an_earlier_one() {
    let mut state = state_of(&["a", "b"]);
    let first = state.begin_delete(0).unwrap();
    let second = state.begin_delete(0).unwrap();
    state.complete_delete(&first, Err("first".to_string()));
    state.complete_delete(&second, Err("second".to_string()));
    assert_eq!(state.last_error(), &Some("second".to_string()));
    assert_eq!(shown_paths(&state), vec!["a", "b"]);
}

#[test]
fn status_stays_deleting_until_the_last_delete_ends() {
    let mut state = state_of(&["a", "b", "c"]);
    let first = state.begin_delete(0).unwrap();
    let second = state.begin_delete(0).unwrap();
    assert_eq!((first.as_str(), second.as_str()), ("a", "b"));
    state.complete_delete(&first, Ok(()));
    assert_eq!(state.status(), Status::Deleting);
    assert_eq!(all_paths(&state), vec!["b", "c"]);
    state.complete_delete(&second, Err("no".to_string()));
    assert_eq!(state.status(), Status::Idle);
    assert_eq!(shown_paths(&state), vec!["b", "c"]);
}

#[test]
fn a_claim_outlasts_what_happens_to_other_entries() {
    let mut state = state_of(&["a", "b", "c"]);
    let first = state.begin_delete(1).unwrap();
    state.move_selection(Direction::Down);
    let second = state.begin_delete(0).unwrap();
    state.complete_delete(&second, Ok(()));
    state.move_selection(Direction::Up);
    assert_eq!(all_paths(&state), vec!["b", "c"]);
    assert!(state.folders()[0].deleting);
    assert_eq!(state.folders()[0].path, first);
    state.complete_delete(&first, Ok(()));
    assert_eq!(all_paths(&state), vec!["c"]);
}

#[test]
fn no_run_of_operations_adds_an_entry_or_breaks_the_state() {
    let mut state = state_of(&["a", "b", "c", "d", "e"]);
    let mut claimed_paths: Vec<String> = Vec::new();
    for round in 0..40usize {
        match round % 7 {
            0 | 4 => state.move_selection(Direction::Down),
            1 => state.move_selection(Direction::Up),
            2 | 5 => {
                if let Some(path) = state.begin_delete(round % 3) {
                    assert!(!claimed_paths.contains(&path));
                    claimed_paths.push(path);
                }
            }
            3 => {
                if !claimed_paths.is_empty() {
                    let path = claimed_paths.remove(0);
                    state.complete_delete(&path, Err(format!("round {}", round)));
                }
            }
            _ => {
                if let Some(path) = claimed_paths.pop() {
                    state.complete_delete(&path, Ok(()));
                }
            }
        }
        let listed = all_paths(&state);
        let shown = shown_paths(&state);
        assert!(listed.iter().all(|p| ["a", "b", "c", "d", "e"].contains(&p.as_str())));
        assert!(paths_are_distinct(state.folders()));
        assert_eq!(shown.len(), count_shown(state.folders()));
        match state.selection() {
            Some(i) => assert!(i < shown.len()),
            None => assert!(shown.is_empty()),
        }
        let under_way = state.folders().iter().any(|f| f.deleting);
        assert_eq!(state.status() == Status::Deleting, under_way);
        for path in &claimed_paths {
            let entry = state.folders().iter().find(|f| &f.path == path).unwrap();
            assert!(entry.deleting);
        }
    }
}

#[test]
fn complete_delete_of_an_unlisted_path() {
    let mut state = state_of(&["a", "b"]);
    let before = state.snapshot();
    state.complete_delete("zzz", Ok(()));
    assert_eq!(state, before);

    state.complete_delete("zzz", Err("gone".to_string()));
    assert_eq!(all_paths(&state), vec!["a", "b"]);
    assert_eq!(state.last_error(), &Some("gone".to_string()));
    assert_eq!(state.status(), Status::Idle);
}

#[test]
fn a_restored_entry_gives_an_empty_list_its_selection_back() {
    let mut state = state_of(&["a"]);
    let path = state.begin_delete(0).unwrap();
    assert_eq!(state.selection(), None);
    state.complete_delete(&path, Err("denied".to_string()));
    assert_eq!(state.selection(), Some(0));
    assert_eq!(shown_paths(&state), vec!["a"]);
}

#[test]
fn snapshot_twice_gives_the_same() {
    let mut state = state_of(&["a", "b", "c"]);
    state.move_selection(Direction::Down);
    let path = state.begin_delete(2).unwrap();
    state.complete_delete(&path, Err("denied".to_string()));
    let _ = state.begin_delete(0);

    let first = state.snapshot();
    let second = state.snapshot();
    assert_eq!(first, second);
    assert_eq!(first, state);
    assert_eq!(first.snapshot(), first);
    assert_eq!(first.selection(), state.selection());
    assert_eq!(first.status(), Status::Deleting);
    assert_eq!(first.last_error(), &Some("denied".to_string()));
    assert_eq!(first.folders(), state.folders());
}

#[test]
fn snapshot_is_a_copy() {
    let mut state = state_of(&["a", "b"]);
    let copy = state.snapshot();
    state.move_selection(Direction::Down);
    let _ = state.begin_delete(0);
    assert_eq!(copy.selection(), Some(0));
    assert_eq!(copy.status(), Status::Idle);
    assert_eq!(copy.not_deleting_folders().len(), 2);
}

#[test]
fn not_deleting_folders_keeps_the_order() {
    let state = AppState::new(vec![
        folder("a"),
        claimed("b"),
        folder("c"),
        claimed("d"),
        folder("e"),
    ])
    .unwrap();
    assert_eq!(shown_paths(&state), vec!["a", "c", "e"]);
    for f in state.not_deleting_folders() {
        assert!(!f.deleting);
    }
}

#[test]
fn counting_and_finding_shown_entries() {
    let folders = vec![claimed("a"), folder("b"), claimed("c"), folder("d"), folder("e")];
    assert_eq!(count_shown(&folders), 3);
    assert_eq!(find_shown(&folders, 0), Some(1));
    assert_eq!(find_shown(&folders, 1), Some(3));
    assert_eq!(find_shown(&folders, 2), Some(4));
    assert_eq!(find_shown(&folders, 3), None);
    assert_eq!(count_shown(&Vec::new()), 0);
    assert_eq!(find_shown(&Vec::new(), 0), None);
}

#[test]
fn finding_paths() {
    let folders = vec![folder("a"), folder("b/c"), folder("b")];
    assert_eq!(find_path(&folders, &"b".to_string()), Some(2));
    assert_eq!(find_path(&folders, &"b/c".to_string()), Some(1));
    assert_eq!(find_path(&folders, &"c".to_string()), None);
    assert!(paths_are_distinct(&folders));
    assert!(paths_are_distinct(&Vec::new()));
    assert!(!paths_are_distinct(&vec![folder("a"), folder("b"), folder("b")]));
}

#[test]
fn duplicate_of_a_folder() {
    let f = Folder { path: "x/node_modules".to_string(), size: Some(42), deleting: true };
    assert_eq!(f.duplicate(), f);
}
