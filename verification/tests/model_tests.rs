use nt::model::{extract_tags, Note};

#[test]
fn test_extract_tags_no_tags() {
    assert_eq!(extract_tags("hello world"), Vec::<String>::new());
}

#[test]
fn test_extract_tags_one_tag() {
    assert_eq!(extract_tags("fix bug #urgent"), vec!["urgent".to_string()]);
}

#[test]
fn test_extract_tags_multiple_tags() {
    assert_eq!(
        extract_tags("fix bug #urgent #now"),
        vec!["urgent".to_string(), "now".to_string()]
    );
}

#[test]
fn test_extract_tags_deduplicates() {
    assert_eq!(extract_tags("#bug stuff #bug"), vec!["bug".to_string()]);
}

#[test]
fn test_extract_tags_hyphens_underscores() {
    assert_eq!(
        extract_tags("#high-priority #needs_review"),
        vec!["high-priority".to_string(), "needs_review".to_string()]
    );
}

#[test]
fn test_extract_tags_bare_hash() {
    assert_eq!(extract_tags("this is # a test"), Vec::<String>::new());
}

#[test]
fn test_extract_tags_case_insensitive() {
    assert_eq!(extract_tags("#URGENT"), vec!["urgent".to_string()]);
}

#[test]
fn test_note_new() {
    let note = Note::new("fix bug #urgent".to_string(), "test-scope".to_string());
    assert_eq!(note.tags, vec!["urgent".to_string()]);
    assert_eq!(note.text, "fix bug #urgent");
    assert_eq!(note.scope, "test-scope");
    assert!(!note.done);
}

#[test]
fn test_note_toggle_done() {
    let mut note = Note::new("test".to_string(), "scope".to_string());
    assert!(!note.done);
    note.toggle_done();
    assert!(note.done);
    note.toggle_done();
    assert!(!note.done);
}

#[test]
fn extract_tags_hash_right_after_hash() {
    assert_eq!(extract_tags("##foo"), vec!["foo".to_string()]);
}

#[test]
fn extract_tags_adjacent_tags() {
    assert_eq!(extract_tags("#a#b"), vec!["a".to_string(), "b".to_string()]);
}

#[test]
fn extract_tags_stop_at_punctuation() {
    assert_eq!(extract_tags("see #todo, then #done."), vec!["todo".to_string(), "done".to_string()]);
}

#[test]
fn extract_tags_mixed_case_repeat() {
    assert_eq!(extract_tags("#Bug and #BUG and #bug"), vec!["bug".to_string()]);
}

#[test]
fn extract_tags_unicode_letters() {
    assert_eq!(extract_tags("#Ärger"), vec!["ärger".to_string()]);
}

#[test]
fn extract_tags_trailing_hash() {
    assert_eq!(extract_tags("end #"), Vec::<String>::new());
}

#[test]
fn note_new_has_ulid_id() {
    let a = Note::new("x".to_string(), "s".to_string());
    let b = Note::new("y".to_string(), "s".to_string());
    assert_eq!(a.id.chars().count(), 26);
    assert!(a.id.chars().all(|c| c.is_ascii_digit() || c.is_ascii_uppercase()));
    assert_ne!(a.id, b.id);
}

#[test]
fn note_clone_is_equal() {
    let a = Note::new("task #x".to_string(), "s".to_string());
    let b = a.clone();
    assert_eq!(a, b);
}
