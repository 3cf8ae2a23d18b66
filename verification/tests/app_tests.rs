use nt::app::{App, Mode};
use nt::model::Note;

fn setup_app() -> App {
    let mut app = App::new("test-scope".to_string(), vec![]);
    app.notes.push(Note::new("first note".to_string(), "test-scope".to_string()));
    app.notes.push(Note::new("second note #tag".to_string(), "test-scope".to_string()));
    app.notes.push(Note::new("third note".to_string(), "test-scope".to_string()));
    app
}

#[test]
fn test_selection_clamps() {
    let mut app = App::new("test-scope".to_string(), vec![]);
    app.move_selection_down();
    assert_eq!(app.selected, 0);
    app.move_selection_up();
    assert_eq!(app.selected, 0);

    let mut app = setup_app();
    app.move_selection_up();
    assert_eq!(app.selected, 0);

    app.move_selection_down();
    assert_eq!(app.selected, 1);
    app.move_selection_down();
    assert_eq!(app.selected, 2);
    app.move_selection_down();
    assert_eq!(app.selected, 2); // clamped
}

#[test]
fn test_add_flow() {
    let mut app = App::new("test-scope".to_string(), vec![]);
    app.start_add();
    assert_eq!(app.mode, Mode::Adding);

    app.input_buffer.push_str("new note");
    let note = app.confirm_add();
    assert!(note.is_some());
    assert_eq!(app.mode, Mode::Normal);
    assert_eq!(app.notes.len(), 1);
    assert_eq!(app.notes[0].text, "new note");
    assert!(app.input_buffer.is_empty());

    app.start_add();
    app.input_buffer.push_str("   ");
    let none = app.confirm_add();
    assert!(none.is_none());
    assert_eq!(app.mode, Mode::Adding);
    assert_eq!(app.notes.len(), 1);

    app.cancel_add();
    assert_eq!(app.mode, Mode::Normal);
    assert!(app.input_buffer.is_empty());
}

#[test]
fn test_toggle_done() {
    let mut app = setup_app();
    assert!(!app.notes[0].done);
    app.toggle_selected_done();
    assert!(app.notes[0].done);

    app.move_selection_down();
    app.toggle_selected_done();
    assert!(app.notes[1].done);
}

#[test]
fn test_delete_flow() {
    let mut app = setup_app();
    app.move_selection_down(); // Select second note
    let id_to_delete = app.notes[1].id.clone();

    app.start_delete_confirm();
    assert_eq!(app.mode, Mode::ConfirmDelete);

    let deleted_id = app.confirm_delete();
    assert_eq!(deleted_id, Some(id_to_delete.clone()));
    assert_eq!(app.notes.len(), 2);
    assert!(!app.notes.iter().any(|n| n.id == id_to_delete));
    assert_eq!(app.mode, Mode::Normal);
    assert_eq!(app.selected, 1); // Clamp selection: was 1, length is 2, 1 is fine

    // Test cancel
    app.start_delete_confirm();
    app.cancel_delete();
    assert_eq!(app.mode, Mode::Normal);
    assert_eq!(app.notes.len(), 2);
}

#[test]
fn test_search_filtering() {
    let mut app = setup_app();
    app.search_query = "second".to_string();
    let visible = app.visible_notes();
    assert_eq!(visible.len(), 1);
    assert_eq!(visible[0].text, "second note #tag");

    app.search_query = "TAG".to_string(); // case insensitive tag match
    let visible = app.visible_notes();
    assert_eq!(visible.len(), 1);
    assert_eq!(visible[0].text, "second note #tag");

    app.search_query = "note".to_string();
    let visible = app.visible_notes();
    assert_eq!(visible.len(), 3);
}

#[test]
fn test_operations_with_filter() {
    let mut app = setup_app();
    app.search_query = "second".to_string();
    app.clamp_selection(); // Emulate apply_search

    // Only the second note is visible, selected index 0 corresponds to it.
    app.toggle_selected_done();
    assert!(app.notes[1].done);
    assert!(!app.notes[0].done);

    let id_to_delete = app.notes[1].id.clone();
    app.start_delete_confirm();
    let deleted = app.confirm_delete();
    assert_eq!(deleted, Some(id_to_delete.clone()));

    assert_eq!(app.notes.len(), 2);
    assert!(!app.notes.iter().any(|n| n.id == id_to_delete));
}

#[test]
fn test_toggle_global_view() {
    let mut app = setup_app();
    assert!(!app.show_global);
    app.toggle_global_view();
    assert!(app.show_global);
}

#[test]
fn test_edit_flow() {
    let mut app = setup_app();
    app.selected = 1; // "second note #tag"

    app.start_edit();
    assert_eq!(app.mode, Mode::Editing);
    assert_eq!(app.input_buffer, "second note #tag");

    app.input_buffer = "edited note #new".to_string();
    let note = app.confirm_edit();

    assert!(note.is_some());
    assert_eq!(app.mode, Mode::Normal);
    assert_eq!(app.notes[1].text, "edited note #new");
    assert_eq!(app.notes[1].tags, vec!["new".to_string()]);
}
