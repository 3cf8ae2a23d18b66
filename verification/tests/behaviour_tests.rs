use nt::app::{App, Mode};
use nt::display::{
    centered_percentages, due_status, key_hints, note_prefix, scope_label, status_marker,
    tag_due_status, tag_label, DueStatus,
};
use nt::event::{handle_key, Key};
use nt::model::Note;
use nt::search::{score_note, sort_entries_by_score};
use nt::storage::{save_plan, scope_file_name, scope_of_file_name};

fn app_with(texts: &[&str]) -> App {
    let mut app = App::new("s".to_string(), vec![]);
    for t in texts {
        app.notes.push(Note::new(t.to_string(), "s".to_string()));
    }
    app
}

fn type_text(app: &mut App, text: &str) {
    for c in text.chars() {
        handle_key(Key::Char(c), app);
    }
}

#[test]
fn ranking_is_stable_and_descending() {
    let sorted = sort_entries_by_score(&vec![(0, 5), (1, 10), (2, 5), (3, 10), (4, 7)]);
    assert_eq!(sorted, vec![(1, 10), (3, 10), (4, 7), (0, 5), (2, 5)]);
}

#[test]
fn ranking_of_nothing() {
    assert_eq!(sort_entries_by_score(&vec![]), vec![]);
}

#[test]
fn tag_match_scores_one_hundred() {
    let note = Note::new("plain text #urgent".to_string(), "s".to_string());
    assert_eq!(score_note(&note, "urg"), Some(100));
    assert_eq!(score_note(&note, "zzz"), None);
}

#[test]
fn blank_query_shows_everything_in_order() {
    let mut app = app_with(&["b", "a", "c"]);
    app.search_query = "   ".to_string();
    assert_eq!(app.visible_indices(), vec![0, 1, 2]);
}

#[test]
fn clear_search_shows_all_again() {
    let mut app = app_with(&["alpha", "beta", "gamma"]);
    app.search_query = "beta".to_string();
    app.apply_search();
    assert_eq!(app.visible_indices(), vec![1]);
    app.clear_search();
    assert_eq!(app.visible_indices(), vec![0, 1, 2]);
    assert_eq!(app.mode, Mode::Normal);
}

#[test]
fn selection_clamped_after_filtering() {
    let mut app = app_with(&["one", "two", "three"]);
    app.selected = 2;
    app.search_query = "one".to_string();
    app.apply_search();
    assert_eq!(app.selected, 0);
    app.search_query = "nothing matches".to_string();
    app.apply_search();
    assert_eq!(app.selected, 0);
}

#[test]
fn keys_add_a_note() {
    let mut app = app_with(&[]);
    handle_key(Key::Char('a'), &mut app);
    assert_eq!(app.mode, Mode::Adding);
    type_text(&mut app, "buy milkk");
    handle_key(Key::Backspace, &mut app);
    type_text(&mut app, " #Shop ");
    handle_key(Key::Enter, &mut app);
    assert_eq!(app.mode, Mode::Normal);
    assert_eq!(app.notes.len(), 1);
    assert_eq!(app.notes[0].text, "buy milk #Shop");
    assert_eq!(app.notes[0].tags, vec!["shop".to_string()]);
    assert_eq!(app.notes[0].scope, "s");
}

#[test]
fn keys_search_then_quit() {
    let mut app = app_with(&["apple", "banana"]);
    handle_key(Key::Char('/'), &mut app);
    assert_eq!(app.mode, Mode::Searching);
    type_text(&mut app, "ban");
    handle_key(Key::Enter, &mut app);
    assert_eq!(app.mode, Mode::Normal);
    assert_eq!(app.search_query, "ban");
    assert_eq!(app.visible_indices(), vec![1]);
    handle_key(Key::Other, &mut app);
    assert!(!app.should_quit);
    handle_key(Key::Esc, &mut app);
    assert!(app.should_quit);
}

#[test]
fn keys_delete_confirm_and_cancel() {
    let mut app = app_with(&["a", "b"]);
    handle_key(Key::Char('x'), &mut app);
    assert_eq!(app.mode, Mode::ConfirmDelete);
    handle_key(Key::Char('n'), &mut app);
    assert_eq!(app.mode, Mode::Normal);
    assert_eq!(app.notes.len(), 2);
    handle_key(Key::Char('x'), &mut app);
    handle_key(Key::Char('y'), &mut app);
    assert_eq!(app.notes.len(), 1);
    assert_eq!(app.notes[0].text, "b");
}

#[test]
fn toggle_done_twice_restores() {
    let mut app = app_with(&["a", "b"]);
    app.selected = 1;
    app.toggle_selected_done();
    assert!(app.notes[1].done);
    app.toggle_selected_done();
    assert!(!app.notes[1].done);
}

#[test]
fn marks_toggle_and_bulk_done() {
    let mut app = app_with(&["a", "b", "c"]);
    app.toggle_multi_select();
    assert!(app.is_marked(&app.notes[0].id.clone()));
    app.toggle_multi_select();
    assert!(app.multi_selected.is_empty());
    app.toggle_multi_select();
    app.selected = 2;
    app.toggle_multi_select();
    app.toggle_selected_done();
    assert!(app.notes[0].done && !app.notes[1].done && app.notes[2].done);
    assert!(app.multi_selected.is_empty());
}

#[test]
fn bulk_delete_reports_bulk() {
    let mut app = app_with(&["a", "b", "c"]);
    app.toggle_multi_select();
    app.selected = 1;
    app.toggle_multi_select();
    app.start_delete_confirm();
    assert_eq!(app.confirm_delete(), Some("bulk".to_string()));
    assert_eq!(app.notes.len(), 1);
    assert_eq!(app.notes[0].text, "c");
    assert_eq!(app.selected, 0);
}

#[test]
fn confirm_delete_outside_confirmation_does_nothing() {
    let mut app = app_with(&["a"]);
    assert_eq!(app.confirm_delete(), None);
    assert_eq!(app.notes.len(), 1);
}

#[test]
fn edit_blank_input_keeps_note() {
    let mut app = app_with(&["keep me"]);
    app.start_edit();
    app.input_buffer = "  ".to_string();
    assert!(app.confirm_edit().is_none());
    assert_eq!(app.mode, Mode::Editing);
    assert_eq!(app.notes[0].text, "keep me");
}

#[test]
fn edit_keeps_id_and_done() {
    let mut app = app_with(&["old"]);
    app.toggle_selected_done();
    let id = app.notes[0].id.clone();
    app.start_edit();
    app.input_buffer = " new #t ".to_string();
    let edited = app.confirm_edit().unwrap();
    assert_eq!(edited.id, id);
    assert!(edited.done);
    assert_eq!(edited.text, "new #t");
    assert_eq!(app.notes[0], edited);
}

#[test]
fn start_edit_without_notes_does_nothing() {
    let mut app = app_with(&[]);
    app.start_edit();
    assert_eq!(app.mode, Mode::Normal);
}

#[test]
fn due_dates_are_classified() {
    // 2024-01-01 is day 738886 counted from 1 January of year 1.
    assert_eq!(tag_due_status("due:2024-01-01", 738886), DueStatus::DueToday);
    assert_eq!(tag_due_status("due:2024-01-01", 738887), DueStatus::Overdue);
    assert_eq!(tag_due_status("due:2024-01-01", 738885), DueStatus::Plain);
    assert_eq!(tag_due_status("due:2024-13-01", 0), DueStatus::Plain);
    assert_eq!(tag_due_status("urgent", 0), DueStatus::Plain);
    assert_eq!(due_status(Some(3), 5), DueStatus::Overdue);
    assert_eq!(due_status(None, 5), DueStatus::Plain);
}

#[test]
fn footer_and_header_values() {
    let mut app = app_with(&["a", "b", "c"]);
    app.toggle_selected_done();
    assert_eq!(app.visible_counts(), (3, 2));
    assert_eq!(app.header_title(), "Scope: s");
    app.toggle_global_view();
    assert_eq!(app.header_title(), "ALL SCOPES");
    assert_eq!(key_hints(Mode::Searching), "Enter: Filter | Esc: Clear");
    assert_eq!(key_hints(Mode::Editing), "Enter: Save | Esc: Cancel");
    assert_eq!(status_marker(true), "[x]");
    assert_eq!(status_marker(false), "[ ]");
}

#[test]
fn scope_file_names_round_trip() {
    assert_eq!(scope_file_name("work"), "work.json");
    assert_eq!(scope_of_file_name("work.json"), Some("work".to_string()));
    assert_eq!(scope_of_file_name("a.b.json"), Some("a.b".to_string()));
    assert_eq!(scope_of_file_name(".json"), None);
    assert_eq!(scope_of_file_name("notes.txt"), None);
    assert_eq!(scope_of_file_name("json"), None);
    assert_eq!(scope_of_file_name(&scope_file_name(".hidden")), Some(".hidden".to_string()));
}

#[test]
fn save_plan_groups_by_scope() {
    let notes = vec![
        Note::new("1".to_string(), "a".to_string()),
        Note::new("2".to_string(), "b".to_string()),
        Note::new("3".to_string(), "a".to_string()),
    ];
    let plan = save_plan(&notes, &"c".to_string(), false, &vec!["d".to_string()]);
    let scopes: Vec<String> = plan.iter().map(|g| g.scope.clone()).collect();
    assert_eq!(scopes, vec!["a".to_string(), "b".to_string(), "c".to_string()]);
    assert_eq!(plan[0].notes, vec![notes[0].clone(), notes[2].clone()]);
    assert_eq!(plan[1].notes, vec![notes[1].clone()]);
    assert!(plan[2].notes.is_empty());

    let plan = save_plan(&notes, &"a".to_string(), true, &vec!["d".to_string(), "b".to_string()]);
    let scopes: Vec<String> = plan.iter().map(|g| g.scope.clone()).collect();
    assert_eq!(scopes, vec!["a".to_string(), "b".to_string(), "d".to_string()]);
    assert!(plan[2].notes.is_empty());
}

#[test]
fn row_pieces() {
    assert_eq!(note_prefix(true, false), "*[ ] ");
    assert_eq!(note_prefix(false, true), " [x] ");
    assert_eq!(scope_label(true, "work"), " (work)");
    assert_eq!(scope_label(false, "work"), "");
    assert_eq!(tag_label("urgent"), "#urgent ");
}

#[test]
fn centered_box_margins() {
    assert_eq!(centered_percentages(60), (20, 60, 20));
    assert_eq!(centered_percentages(25), (37, 25, 37));
    assert_eq!(centered_percentages(100), (0, 100, 0));
}

#[test]
fn note_times_keep_nanoseconds() {
    let a = Note::new("x".to_string(), "s".to_string());
    assert!(a.created_at.nanos < 2_000_000_000);
    assert!(a.created_at.secs > 1_600_000_000);
}

#[test]
fn list_rows_describe_each_visible_note() {
    let mut app = app_with(&["first #due:2024-01-01", "second #Work"]);
    app.toggle_selected_done();
    app.selected = 1;
    app.toggle_multi_select();
    app.show_global = true;
    let rows = app.list_rows(738886);
    assert_eq!(rows.len(), 2);
    assert_eq!(rows[0].prefix, " [x] ");
    assert!(rows[0].done && !rows[0].marked && !rows[0].selected);
    assert_eq!(rows[0].scope_label, " (s)");
    assert_eq!(rows[1].prefix, "*[ ] ");
    assert!(rows[1].marked && rows[1].selected);
    assert_eq!(rows[1].text, "second #Work");
    assert_eq!(rows[1].tags, vec![("#work ".to_string(), DueStatus::Plain)]);
    // A tag cannot hold ':', so the written tag is only "due".
    assert_eq!(rows[0].tags, vec![("#due ".to_string(), DueStatus::Plain)]);
}
