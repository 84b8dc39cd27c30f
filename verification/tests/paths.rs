use bmersive::commands::normalize_path;
use bmersive::locations::{appointment_path_from, sessions_state_path_from, state_path_from};
use bmersive::paths::{basename, join_path_str, normalize_absolute_path, split_pieces};

#[test]
fn normalizes_relative_segments_without_resolving_symlinks() {
    let path = normalize_absolute_path("/work/link/../link/project/./src");
    assert_eq!(path, "/work/link/project/src".to_string());
}

#[test]
fn state_path_prefers_runtime_dir() {
    assert_eq!(
        state_path_from(None, Some("/run/user/123".to_string()), Some("me".to_string())),
        "/run/user/123/bmersive/bookmarks.json".to_string()
    );
}

#[test]
fn state_path_prefers_explicit_state_dir() {
    assert_eq!(
        state_path_from(
            Some("/tmp/bmersive-session".to_string()),
            Some("/run/user/123".to_string()),
            Some("me".to_string())
        ),
        "/tmp/bmersive-session/bookmarks.json".to_string()
    );
}

#[test]
fn state_path_falls_back_to_tmp_user_dir() {
    assert_eq!(
        state_path_from(None, None, Some("testuser".to_string())),
        "/tmp/bmersive-testuser/bookmarks.json".to_string()
    );
}

#[test]
fn sessions_state_path_prefers_xdg_state_home() {
    assert_eq!(
        sessions_state_path_from(
            Some("/state".to_string()),
            Some("/home/me".to_string()),
            Some("me".to_string())
        ),
        "/state/bmersive/sessions.json".to_string()
    );
}

#[test]
fn sessions_state_path_uses_home_local_state() {
    assert_eq!(
        sessions_state_path_from(None, Some("/home/me".to_string()), Some("me".to_string())),
        "/home/me/.local/state/bmersive/sessions.json".to_string()
    );
}

#[test]
fn sessions_state_path_falls_back_to_tmp_user_dir() {
    assert_eq!(
        sessions_state_path_from(None, None, Some("testuser".to_string())),
        "/tmp/bmersive-testuser/sessions.json".to_string()
    );
}

#[test]
fn appointment_path_requires_state_dir() {
    assert_eq!(
        appointment_path_from(Some("/tmp/bmersive-shell".to_string())).expect("appointment path"),
        "/tmp/bmersive-shell/session".to_string()
    );
    assert!(appointment_path_from(None).is_err());
}

#[test]
fn basename_uses_final_path_component() {
    assert_eq!(basename("/work/api"), "api");
}

// ----- further cases -----

#[test]
fn empty_settings_count_as_unset() {
    assert_eq!(
        state_path_from(Some(String::new()), Some(String::new()), None),
        "/tmp/bmersive-unknown/bookmarks.json".to_string()
    );
    assert_eq!(
        sessions_state_path_from(Some(String::new()), Some(String::new()), None),
        "/tmp/bmersive-unknown/sessions.json".to_string()
    );
    let err = appointment_path_from(Some(String::new())).unwrap_err();
    assert_eq!(err.message, "no session selected. Run: b session choose");
}

#[test]
fn trailing_separator_is_not_doubled() {
    assert_eq!(
        state_path_from(Some("/state/".to_string()), None, None),
        "/state/bookmarks.json".to_string()
    );
    assert_eq!(join_path_str("/a", "b"), "/a/b");
    assert_eq!(join_path_str("/a/", "b"), "/a/b");
    assert_eq!(join_path_str("", "b"), "b");
}

#[test]
fn splits_at_every_separator() {
    assert_eq!(split_pieces("/a//b"), vec!["", "a", "", "b"]);
    assert_eq!(split_pieces(""), vec![""]);
    assert_eq!(split_pieces("é/ü"), vec!["é", "ü"]);
}

#[test]
fn normalization_edge_cases() {
    assert_eq!(normalize_absolute_path("/"), "/");
    assert_eq!(normalize_absolute_path("/.."), "/");
    assert_eq!(normalize_absolute_path("/a/b/../../.."), "/");
    assert_eq!(normalize_absolute_path("//work///api/"), "/work/api");
    assert_eq!(normalize_absolute_path("a/../b"), "b");
    assert_eq!(normalize_absolute_path("../a"), "a");
    assert_eq!(normalize_absolute_path("./"), "");
}

#[test]
fn normalization_is_idempotent_and_ignores_dot_segments() {
    let once = normalize_absolute_path("/work/./project/../project//src/.");
    assert_eq!(once, "/work/project/src");
    assert_eq!(normalize_absolute_path(&once), once);
    assert_eq!(
        normalize_absolute_path("/work/./project"),
        normalize_absolute_path("/work/project")
    );
}

#[test]
fn relative_targets_resolve_against_cwd() {
    assert_eq!(normalize_path("api", "/work"), "/work/api");
    assert_eq!(normalize_path("../web", "/work/api"), "/work/web");
    assert_eq!(normalize_path("/abs/./x", "/work"), "/abs/x");
    assert_eq!(normalize_path("", "/work"), "/work");
}

#[test]
fn basename_edge_cases() {
    assert_eq!(basename("/"), "bmersive");
    assert_eq!(basename(""), "bmersive");
    assert_eq!(basename("."), "bmersive");
    assert_eq!(basename("/work/.."), "bmersive");
    assert_eq!(basename("/work/api/."), "api");
    assert_eq!(basename("/work/api/"), "api");
    assert_eq!(basename("api"), "api");
}

#[test]
fn normal_forms_name_no_dot_components_and_keep_plain_paths() {
    for p in ["/a/./b/../c/..", "x/../../y/.", "/../..", "/w//x/./y/", "rel/./a"] {
        let n = normalize_absolute_path(p);
        assert!(split_pieces(&n).iter().all(|c| c != "." && c != ".."));
        assert_eq!(n.starts_with('/'), p.starts_with('/'));
    }
    assert_eq!(normalize_absolute_path("/plain/path/"), "/plain/path");
    assert_eq!(normalize_absolute_path("a//b"), "a/b");
}
