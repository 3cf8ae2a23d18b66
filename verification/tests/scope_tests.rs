use nt::scope::{detect_scope, sanitize_scope_name, Ancestor};

fn level(name: Option<&str>, has_git: bool) -> Ancestor {
    Ancestor { name: name.map(|s| s.to_string()), has_git }
}

#[test]
fn test_sanitize_scope_name() {
    assert_eq!(sanitize_scope_name("normal_name"), "normal_name");
    assert_eq!(sanitize_scope_name("my:weird/repo*name?"), "my_weird_repo_name_");
    assert_eq!(sanitize_scope_name("a\\b|c<d>e\"f"), "a_b_c_d_e_f");
}

#[test]
fn test_detect_scope_fallback() {
    // The root directory: no name, no repository.
    assert_eq!(detect_scope(&vec![level(None, false)]), "_global");
}

#[test]
fn detect_scope_nearest_repository() {
    let path = vec![
        level(Some("nested"), false),
        level(Some("src"), false),
        level(Some("my-repo"), true),
        level(Some("outer"), true),
        level(None, false),
    ];
    assert_eq!(detect_scope(&path), "my-repo");
}

#[test]
fn detect_scope_directory_name_without_repository() {
    let path = vec![level(Some("src"), false), level(Some("my-project"), false), level(None, false)];
    assert_eq!(detect_scope(&path), "src");
}

#[test]
fn detect_scope_skips_nameless_repository() {
    let path = vec![level(Some("work"), false), level(None, true)];
    assert_eq!(detect_scope(&path), "work");
}

#[test]
fn detect_scope_sanitizes() {
    let path = vec![level(Some("a:b"), true)];
    assert_eq!(detect_scope(&path), "a_b");
}

#[test]
fn detect_scope_empty_path() {
    assert_eq!(detect_scope(&vec![]), "_global");
}

#[test]
fn detected_scope_is_never_empty() {
    for path in [
        vec![level(Some("::"), false)],
        vec![level(None, false)],
        vec![level(Some("x"), false), level(Some("|"), true)],
    ] {
        let scope = detect_scope(&path);
        assert!(!scope.is_empty());
        assert!(!scope.chars().any(|c| "/\\:*?\"<>|".contains(c)));
    }
}
