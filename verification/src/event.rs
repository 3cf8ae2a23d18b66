//! Key handling: which operation each key triggers in each mode.
use vstd::prelude::*;
use crate::app::{App, AppView, Mode};
use crate::text::trimmed;

verus! {

/// A key press, as far as the key bindings tell keys apart.
#[derive(Debug, Clone, Copy, PartialEq, Eq, Structural)]
pub enum Key {
    Char(char),
    Enter,
    Esc,
    Backspace,
    Up,
    Down,
    /// Any other key; it does nothing.
    Other,
}

/// `s` without its last character, if it has one.
pub open spec fn backspaced(s: Seq<char>) -> Seq<char> {
    if s.len() > 0 { s.drop_last() } else { s }
}

/// The state `b` can follow from `a` when `key` is pressed.
/// Normal mode: `q`/Esc quit, `j`/Down and `k`/Up move, `a` adds, `e` edits, `v` marks,
/// space/`d` toggle done, `x` deletes, `/` searches, `g` toggles the global view.
/// Adding and editing: Enter confirms, Esc cancels, Backspace and characters edit the input.
/// Searching: Enter applies, Esc clears, Backspace and characters edit the query.
/// Confirming a deletion: `y`/Enter confirm, `n`/Esc cancel.
/// Every other key leaves the state as it is.
pub open spec fn key_effect(a: AppView, key: Key, b: AppView) -> bool {
    match a.mode {
        Mode::Normal => match key {
            Key::Char('q') | Key::Esc => b == AppView { should_quit: true, ..a },
            Key::Char('j') | Key::Down => b == a.after_move_down(),
            Key::Char('k') | Key::Up => b == a.after_move_up(),
            Key::Char('a') => b == a.after_start_add(),
            Key::Char('e') => b == a.after_start_edit(),
            Key::Char('v') => b == a.after_toggle_mark(),
            Key::Char(' ') | Key::Char('d') => b == a.after_toggle_done(),
            Key::Char('x') => b == a.after_start_delete(),
            Key::Char('/') => b == a.with_mode(Mode::Searching),
            Key::Char('g') => b == a.after_toggle_global(),
            _ => b == a,
        },
        Mode::Adding => match key {
            Key::Enter => if trimmed(a.input).len() == 0 {
                b == a
            } else {
                exists|n| a.fresh_note(n) && b == a.after_add(n)
            },
            Key::Esc => b == a.after_cancel_input(),
            Key::Backspace => b == AppView { input: backspaced(a.input), ..a },
            Key::Char(c) => b == AppView { input: a.input.push(c), ..a },
            _ => b == a,
        },
        Mode::Editing => match key {
            Key::Enter => b == a.after_confirm_edit(),
            Key::Esc => b == a.after_cancel_input(),
            Key::Backspace => b == AppView { input: backspaced(a.input), ..a },
            Key::Char(c) => b == AppView { input: a.input.push(c), ..a },
            _ => b == a,
        },
        Mode::Searching => match key {
            Key::Enter => b == a.with_mode(Mode::Normal).clamped(),
            Key::Esc => b == a.after_clear_search(),
            Key::Backspace => b == AppView { query: backspaced(a.query), ..a },
            Key::Char(c) => b == AppView { query: a.query.push(c), ..a },
            _ => b == a,
        },
        Mode::ConfirmDelete => match key {
            Key::Char('y') | Key::Enter => b == a.after_confirm_delete(),
            Key::Char('n') | Key::Esc => b == a.with_mode(Mode::Normal),
            _ => b == a,
        },
    }
}

/// Applies a key press to the application state, as the key bindings say.
pub fn handle_key(key: Key, app: &mut App)
    ensures
        key_effect(old(app)@, key, final(app)@),
{
    match app.mode {
        Mode::Normal => match key {
            Key::Char('q') | Key::Esc => app.should_quit = true,
            Key::Char('j') | Key::Down => app.move_selection_down(),
            Key::Char('k') | Key::Up => app.move_selection_up(),
            Key::Char('a') => app.start_add(),
            Key::Char('e') => app.start_edit(),
            Key::Char('v') => app.toggle_multi_select(),
            Key::Char(' ') | Key::Char('d') => app.toggle_selected_done(),
            Key::Char('x') => app.start_delete_confirm(),
            Key::Char('/') => app.start_search(),
            Key::Char('g') => app.toggle_global_view(),
            _ => {},
        },
        Mode::Adding => match key {
            Key::Enter => {
                let _ = app.confirm_add();
            },
            Key::Esc => app.cancel_add(),
            Key::Backspace => {
                let _ = app.input_buffer.pop();
            },
            Key::Char(c) => app.input_buffer.push(c),
            _ => {},
        },
        Mode::Editing => match key {
            Key::Enter => {
                let _ = app.confirm_edit();
            },
            Key::Esc => app.cancel_edit(),
            Key::Backspace => {
                let _ = app.input_buffer.pop();
            },
            Key::Char(c) => app.input_buffer.push(c),
            _ => {},
        },
        Mode::Searching => match key {
            Key::Enter => app.apply_search(),
            Key::Esc => app.clear_search(),
            Key::Backspace => {
                let _ = app.search_query.pop();
            },
            Key::Char(c) => app.search_query.push(c),
            _ => {},
        },
        Mode::ConfirmDelete => match key {
            Key::Char('y') | Key::Enter => {
                let _ = app.confirm_delete();
            },
            Key::Char('n') | Key::Esc => app.cancel_delete(),
            _ => {},
        },
    }
}

/// The navigation keys law: in normal mode `j` does exactly what Down does and `k` exactly
/// what Up does; Down moves the selection one note down when there is a visible note below it,
/// and Up one note up when it is not at the top; neither changes the notes.
pub proof fn lemma_navigation_keys(a: AppView, b: AppView)
    requires
        a.mode == Mode::Normal,
        a.notes.len() <= usize::MAX,
    ensures
        key_effect(a, Key::Char('j'), b) <==> key_effect(a, Key::Down, b),
        key_effect(a, Key::Char('k'), b) <==> key_effect(a, Key::Up, b),
        key_effect(a, Key::Down, b) && a.selected + 1 < a.visible().len() ==> b.selected
            == a.selected + 1 && b.notes == a.notes,
        key_effect(a, Key::Up, b) && a.selected > 0 ==> b.selected == a.selected - 1 && b.notes
            == a.notes,
        key_effect(a, Key::Down, b) || key_effect(a, Key::Up, b) ==> b.notes == a.notes,
{
    crate::search::lemma_visible_in_bounds(a.notes, a.query);
}

/// The mode law of the key bindings: which mode each binding leads to, and what it does to
/// the quit flag and the typed text.
pub proof fn lemma_key_modes(a: AppView, b: AppView)
    ensures
        a.mode == Mode::Normal && (key_effect(a, Key::Char('q'), b) || key_effect(a, Key::Esc, b))
            ==> b.should_quit && b.notes == a.notes,
        a.mode == Mode::Normal && key_effect(a, Key::Char('a'), b) ==> b.mode == Mode::Adding
            && b.input.len() == 0 && b.notes == a.notes,
        a.mode == Mode::Normal && key_effect(a, Key::Char('/'), b) ==> b.mode == Mode::Searching
            && b.query == a.query,
        a.mode == Mode::Normal && key_effect(a, Key::Char('g'), b) ==> b.show_global
            == !a.show_global && b.notes == a.notes,
        a.mode == Mode::Normal && key_effect(a, Key::Char('x'), b) ==> b.notes == a.notes && (
        b.mode == Mode::ConfirmDelete || b.mode == Mode::Normal),
        a.mode == Mode::Adding && key_effect(a, Key::Esc, b) ==> b.mode == Mode::Normal
            && b.input.len() == 0 && b.notes == a.notes,
        (a.mode == Mode::Adding || a.mode == Mode::Editing) && key_effect(a, Key::Char('z'), b)
            ==> b.input == a.input.push('z') && b.mode == a.mode,
        a.mode == Mode::Searching && key_effect(a, Key::Char('z'), b) ==> b.query == a.query.push(
            'z',
        ) && b.mode == Mode::Searching,
        a.mode == Mode::Searching && key_effect(a, Key::Esc, b) ==> b.query.len() == 0 && b.mode
            == Mode::Normal,
        a.mode == Mode::ConfirmDelete && (key_effect(a, Key::Char('n'), b) || key_effect(a, Key::Esc, b))
            ==> b.mode == Mode::Normal && b.notes == a.notes,
        !(a.mode == Mode::Normal) ==> (key_effect(a, Key::Other, b) <==> b == a),
{
}

} // verus!
