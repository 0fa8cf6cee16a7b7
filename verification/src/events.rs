//! What the operator's keys mean, and what each of them does to the list.
//!
//! The listener reads a key stroke from the terminal, hands it to [`decode`],
//! and the key that comes out, if any, to [`handle_key`]. What `handle_key`
//! returns tells the listener what is left for it to do.

use crate::laws::{lemma_begin_delete_keeps_wf, lemma_move_selection_keeps_wf};
use crate::model::{AppStateView, Direction};
use crate::state::AppState;
use vstd::prelude::*;

verus! {

/// A key the list reacts to.
#[derive(Clone, Copy, Debug, PartialEq, Eq, Structural)]
pub enum Key {
    /// Select the entry above.
    Up,
    /// Select the entry below.
    Down,
    /// Delete the selected entry.
    Enter,
    /// Leave the program.
    CtrlC,
}

/// The key of a stroke, as far as the list tells keys apart.
#[derive(Clone, Copy, Debug, PartialEq, Eq, Structural)]
pub enum KeyCode {
    Up,
    Down,
    Enter,
    Char(char),
    Other,
}

/// The modifier keys held during a stroke.
#[derive(Clone, Copy, Debug, PartialEq, Eq, Structural)]
pub enum Modifiers {
    /// None at all.
    Empty,
    /// Control, and no other.
    Control,
    /// Any other combination.
    Other,
}

/// One event of the keyboard.
#[derive(Clone, Copy, Debug, PartialEq, Eq, Structural)]
pub struct KeyStroke {
    pub code: KeyCode,
    pub modifiers: Modifiers,
    /// Whether the key went down. A repeat or a release is no press.
    pub pressed: bool,
}

/// What is left for the listener to do after a key.
#[derive(Clone, Debug, PartialEq, Eq)]
pub enum Action {
    /// Nothing: wait for the next key.
    Continue,
    /// Delete the directory at this path, then report how that ended with
    /// `complete_delete`.
    Delete(String),
    /// Restore the terminal, then leave the program.
    Quit,
}

/// An [`Action`], with the path as a sequence of characters.
pub enum ActionView {
    Continue,
    Delete(Seq<char>),
    Quit,
}

impl View for Action {
    type V = ActionView;

    open spec fn view(&self) -> ActionView {
        match self {
            Action::Continue => ActionView::Continue,
            Action::Delete(path) => ActionView::Delete(path@),
            Action::Quit => ActionView::Quit,
        }
    }
}

/// The key that a stroke stands for: a press of an arrow or of Enter with no
/// modifier held, or a press of `c` with Control alone. Every other stroke
/// stands for none.
pub open spec fn decoded(stroke: KeyStroke) -> Option<Key> {
    if !stroke.pressed {
        None
    } else {
        match (stroke.code, stroke.modifiers) {
            (KeyCode::Up, Modifiers::Empty) => Some(Key::Up),
            (KeyCode::Down, Modifiers::Empty) => Some(Key::Down),
            (KeyCode::Enter, Modifiers::Empty) => Some(Key::Enter),
            (KeyCode::Char(c), Modifiers::Control) => if c == 'c' {
                Some(Key::CtrlC)
            } else {
                None
            },
            _ => None,
        }
    }
}

/// The state after a key, and what is left for the listener to do.
pub open spec fn handled(s: AppStateView, key: Key) -> (AppStateView, ActionView) {
    match key {
        Key::Up => (s.move_selection(Direction::Up), ActionView::Continue),
        Key::Down => (s.move_selection(Direction::Down), ActionView::Continue),
        Key::Enter => match s.selection {
            Some(i) => if i < s.shown().len() {
                (s.begin_delete(i as int), ActionView::Delete(s.shown()[i as int].path))
            } else {
                (s, ActionView::Continue)
            },
            None => (s, ActionView::Continue),
        },
        Key::CtrlC => (s, ActionView::Quit),
    }
}

/// Tells which key a stroke stands for, if any.
pub fn decode(stroke: &KeyStroke) -> (r: Option<Key>)
    ensures
        r == decoded(*stroke),
{
    if !stroke.pressed {
        return None;
    }
    match stroke.modifiers {
        Modifiers::Empty => match stroke.code {
            KeyCode::Up => Some(Key::Up),
            KeyCode::Down => Some(Key::Down),
            KeyCode::Enter => Some(Key::Enter),
            _ => None,
        },
        Modifiers::Control => match stroke.code {
            KeyCode::Char(c) => if c == 'c' {
                Some(Key::CtrlC)
            } else {
                None
            },
            _ => None,
        },
        Modifiers::Other => None,
    }
}

/// Applies a key to the list. An arrow moves the selection. Enter claims the
/// selected entry and asks for its deletion; with nothing selected it does
/// nothing. Control-C asks to leave and changes nothing.
pub fn handle_key(state: &mut AppState, key: Key) -> (action: Action)
    requires
        old(state).wf(),
    ensures
        final(state).wf(),
        (final(state)@, action@) == handled(old(state)@, key),
{
    match key {
        Key::Up => {
            state.move_selection(Direction::Up);
            Action::Continue
        },
        Key::Down => {
            state.move_selection(Direction::Down);
            Action::Continue
        },
        Key::Enter => match state.selection() {
            Some(i) => match state.begin_delete(i) {
                Some(path) => Action::Delete(path),
                None => Action::Continue,
            },
            None => Action::Continue,
        },
        Key::CtrlC => Action::Quit,
    }
}

/// Whatever keys arrive, the list state stays well formed.
pub proof fn keys_keep_the_invariant(s: AppStateView, key: Key)
    requires
        s.wf(),
    ensures
        handled(s, key).0.wf(),
{
    match key {
        Key::Up => lemma_move_selection_keeps_wf(s, Direction::Up),
        Key::Down => lemma_move_selection_keeps_wf(s, Direction::Down),
        Key::Enter => match s.selection {
            Some(i) => {
                lemma_begin_delete_keeps_wf(s, i as int);
            },
            None => {},
        },
        Key::CtrlC => {},
    }
}

} // verus!
