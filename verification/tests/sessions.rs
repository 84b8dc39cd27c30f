use bmersive::commands::{
    add_bookmark, appointed_bookmarks, appointed_bookmarks_mut, bookmark_path, choose_session,
    create_session, import_legacy_state, list_bookmarks, list_sessions, load_appointed_session,
    load_sessions_state, max_bookmarks_from, parse_index, print_jump_target, remove_bookmark,
    save_appointed_session, use_session, validate_session_name, AddOutcome, RemoveOutcome,
    DEFAULT_MAX_BOOKMARKS,
};
use bmersive::commands::{choose_prompt_lines, normalize_path, remove_prompt_lines};
use bmersive::errors::CliError;
use bmersive::state::{BookmarkState, SessionsState};
use bmersive::text::{parse_usize, trim_text, usize_to_decimal};

fn bookmarks(items: &[&str]) -> BookmarkState {
    BookmarkState { bookmarks: items.iter().map(|s| s.to_string()).collect() }
}

fn one_session(name: &str, items: &[&str]) -> SessionsState {
    let mut sessions = SessionsState::new();
    sessions.insert_session(name.to_string(), bookmarks(items));
    sessions
}

fn list_of(sessions: &SessionsState, name: &str) -> Vec<String> {
    appointed_bookmarks(sessions, name).expect("session").bookmarks.clone()
}

#[test]
fn load_sessions_imports_legacy_bookmarks_when_new_state_missing() {
    let state = load_sessions_state(None, Some(bookmarks(&["/work/api"])));
    assert_eq!(
        state.get("default").expect("default session").bookmarks,
        vec!["/work/api".to_string()]
    );
}

#[test]
fn load_sessions_prefers_new_state_over_legacy() {
    let sessions = one_session("api", &["/work/api"]);
    let state = load_sessions_state(Some(sessions), Some(bookmarks(&["/work/legacy"])));
    assert!(state.contains_session("api"));
    assert!(!state.contains_session("default"));
}

#[test]
fn max_bookmarks_uses_positive_config_or_default() {
    assert_eq!(max_bookmarks_from(Some("5")), 5);
    assert_eq!(max_bookmarks_from(Some("0")), DEFAULT_MAX_BOOKMARKS);
    assert_eq!(max_bookmarks_from(Some("nope")), DEFAULT_MAX_BOOKMARKS);
    assert_eq!(max_bookmarks_from(None), DEFAULT_MAX_BOOKMARKS);
}

#[test]
fn parse_index_accepts_non_negative_integer() {
    assert_eq!(parse_index(Some("2")).expect("parse valid index"), 2);
    assert!(parse_index(Some("nope")).is_err());
}

#[test]
fn validates_session_names() {
    assert!(validate_session_name("api").is_ok());
    assert!(validate_session_name("api-web2").is_ok());
    assert!(validate_session_name("Api").is_err());
    assert!(validate_session_name("api_web").is_err());
    assert!(validate_session_name("").is_err());
}

#[test]
fn jump_target_output_uses_first_bookmark_unless_disabled() {
    let sessions = one_session("api", &["/work/api"]);
    assert!(print_jump_target(&sessions, "api", false).is_ok());
    assert!(print_jump_target(&sessions, "api", true).is_ok());
}

// ----- whole command flows: add, list, path, remove and the limit -----

#[test]
fn add_list_path_and_remove_bookmarks() {
    let mut sessions = one_session("default", &[]);
    let max = max_bookmarks_from(None);
    assert!(add_bookmark(&mut sessions, "default", "/tmp/rt/one", "/", max).is_ok());
    assert!(add_bookmark(&mut sessions, "default", "/tmp/rt/two", "/", max).is_ok());
    let lines = list_bookmarks(&sessions, "default").expect("list");
    assert_eq!(lines, vec!["[0] /tmp/rt/one".to_string(), "[1] /tmp/rt/two".to_string()]);
    assert_eq!(bookmark_path(&sessions, "default", 1).expect("path 1"), "/tmp/rt/two");
    assert!(remove_bookmark(&mut sessions, "default", 0).is_ok());
    assert_eq!(bookmark_path(&sessions, "default", 0).expect("path 0"), "/tmp/rt/two");
}

#[test]
fn duplicate_add_does_not_create_second_entry() {
    let mut sessions = one_session("default", &[]);
    let max = max_bookmarks_from(None);
    assert!(add_bookmark(&mut sessions, "default", "/tmp/rt/project", "/", max).is_ok());
    match add_bookmark(&mut sessions, "default", "/tmp/rt/project/.", "/", max) {
        Ok(AddOutcome::AlreadyBookmarked { bookmark }) => assert_eq!(bookmark, "/tmp/rt/project"),
        other => panic!("unexpected {:?}", other),
    }
    let lines = list_bookmarks(&sessions, "default").expect("list");
    assert_eq!(lines.iter().filter(|line| line.starts_with('[')).count(), 1);
}

#[test]
fn configured_max_rejects_full_list() {
    let mut sessions = one_session("default", &[]);
    let max = max_bookmarks_from(Some("1"));
    assert!(add_bookmark(&mut sessions, "default", "/tmp/rt/one", "/", max).is_ok());
    let err = add_bookmark(&mut sessions, "default", "/tmp/rt/two", "/", max).unwrap_err();
    assert!(err.message.contains("bookmark list is full"));
    assert_eq!(err.message, "bookmark list is full (1 max). Remove one with: b rm");
    assert_eq!(list_of(&sessions, "default"), vec!["/tmp/rt/one".to_string()]);
}

// ----- further cases -----

#[test]
fn add_appends_in_order_and_reports_the_index() {
    let mut sessions = one_session("web", &["/a"]);
    match add_bookmark(&mut sessions, "web", "b", "/work", 10) {
        Ok(AddOutcome::Added { index, bookmark }) => {
            assert_eq!(index, 1);
            assert_eq!(bookmark, "/work/b");
        }
        other => panic!("unexpected {:?}", other),
    }
    assert_eq!(list_of(&sessions, "web"), vec!["/a".to_string(), "/work/b".to_string()]);
}

#[test]
fn add_to_a_missing_session_is_refused() {
    let mut sessions = one_session("web", &[]);
    let err = add_bookmark(&mut sessions, "api", "/a", "/", 10).unwrap_err();
    assert_eq!(err.message, "selected session 'api' does not exist");
    assert!(!sessions.contains_session("api"));
}

#[test]
fn already_bookmarked_wins_over_a_full_list() {
    let mut sessions = one_session("web", &["/a"]);
    match add_bookmark(&mut sessions, "web", "/a", "/", 1) {
        Ok(AddOutcome::AlreadyBookmarked { .. }) => {}
        other => panic!("unexpected {:?}", other),
    }
}

#[test]
fn remove_then_add_restores_and_keeps_order() {
    let mut sessions = one_session("web", &["/a", "/b", "/c"]);
    match remove_bookmark(&mut sessions, "web", 1) {
        Ok(RemoveOutcome::Removed { index, bookmark }) => {
            assert_eq!(index, 1);
            assert_eq!(bookmark, "/b");
        }
        other => panic!("unexpected {:?}", other),
    }
    assert_eq!(list_of(&sessions, "web"), vec!["/a".to_string(), "/c".to_string()]);
    assert!(add_bookmark(&mut sessions, "web", "/d", "/", 10).is_ok());
    assert!(remove_bookmark(&mut sessions, "web", 2).is_ok());
    assert_eq!(list_of(&sessions, "web"), vec!["/a".to_string(), "/c".to_string()]);
}

#[test]
fn remove_edge_cases() {
    let mut sessions = one_session("web", &[]);
    assert!(matches!(remove_bookmark(&mut sessions, "web", 0), Ok(RemoveOutcome::NothingToRemove)));
    let mut sessions = one_session("web", &["/a"]);
    let err = remove_bookmark(&mut sessions, "web", 4).unwrap_err();
    assert_eq!(err.message, "bookmark index 4 does not exist");
    let err = remove_bookmark(&mut sessions, "api", 0).unwrap_err();
    assert_eq!(err.message, "selected session 'api' does not exist");
    assert_eq!(list_of(&sessions, "web"), vec!["/a".to_string()]);
}

#[test]
fn path_of_a_missing_index_is_refused() {
    let sessions = one_session("web", &["/a"]);
    let err = bookmark_path(&sessions, "web", 9).unwrap_err();
    assert_eq!(err.message, "bookmark index 9 does not exist");
}

#[test]
fn listing_an_empty_session() {
    let sessions = one_session("web", &[]);
    assert_eq!(
        list_bookmarks(&sessions, "web").expect("list"),
        vec!["No bookmarks. Add one with: b add".to_string()]
    );
}

#[test]
fn sessions_are_created_once_and_listed_in_name_order() {
    let mut sessions = SessionsState::new();
    assert_eq!(
        list_sessions(&sessions),
        vec!["No sessions. Create one with: b session new <name>".to_string()]
    );
    assert!(create_session(&mut sessions, "web-app").is_ok());
    assert!(create_session(&mut sessions, "infra").is_ok());
    assert!(create_session(&mut sessions, "api").is_ok());
    let err = create_session(&mut sessions, "infra").unwrap_err();
    assert_eq!(err.message, "session 'infra' already exists");
    let err = create_session(&mut sessions, "Bad").unwrap_err();
    assert_eq!(err.message, "session name must use lowercase letters, numbers, and hyphens");
    assert_eq!(
        list_sessions(&sessions),
        vec!["[0] api".to_string(), "[1] infra".to_string(), "[2] web-app".to_string()]
    );
    assert!(appointed_bookmarks(&sessions, "api").expect("api").bookmarks.is_empty());
}

#[test]
fn insert_session_replaces_existing_entries() {
    let mut sessions = one_session("b", &["/1"]);
    sessions.insert_session("a".to_string(), bookmarks(&["/2"]));
    sessions.insert_session("b".to_string(), bookmarks(&["/3"]));
    assert_eq!(sessions.session_names(), vec!["a".to_string(), "b".to_string()]);
    assert_eq!(list_of(&sessions, "b"), vec!["/3".to_string()]);
    assert_eq!(sessions.entries().len(), 2);
}

#[test]
fn use_and_choose_report_the_jump() {
    let mut sessions = one_session("web-app", &["/work/api"]);
    assert!(create_session(&mut sessions, "infra").is_ok());
    assert_eq!(
        use_session(&sessions, "web-app", false).expect("use"),
        Some("Jumping to [0] /work/api".to_string())
    );
    assert_eq!(use_session(&sessions, "web-app", true).expect("use"), None);
    assert_eq!(
        use_session(&sessions, "infra", false).expect("use"),
        Some("No bookmark at [0] to jump to. Add one with: b add".to_string())
    );
    assert_eq!(
        use_session(&sessions, "nope", false).unwrap_err().message,
        "session 'nope' does not exist"
    );
    assert_eq!(
        use_session(&sessions, "No", false).unwrap_err().message,
        "session name must use lowercase letters, numbers, and hyphens"
    );
    let (name, line) = choose_session(&sessions, 1, false).expect("choose");
    assert_eq!(name, "web-app");
    assert_eq!(line, Some("Jumping to [0] /work/api".to_string()));
    assert_eq!(
        choose_session(&sessions, 2, true).unwrap_err().message,
        "session index 2 does not exist"
    );
    assert_eq!(
        print_jump_target(&sessions, "gone", false).unwrap_err().message,
        "selected session 'gone' does not exist"
    );
}

#[test]
fn appointment_file_round_trip() {
    let contents = save_appointed_session("web-app");
    assert_eq!(contents, "web-app\n");
    assert_eq!(load_appointed_session(Some(&contents)).expect("load"), "web-app");
    assert_eq!(load_appointed_session(Some("  api \t\n")).expect("load"), "api");
    let err = load_appointed_session(Some(" \n")).unwrap_err();
    assert_eq!(err.message, "no session selected. Run: b session choose");
    assert!(load_appointed_session(None).is_err());
}

#[test]
fn legacy_import_skips_an_empty_list() {
    let state = import_legacy_state(bookmarks(&[]));
    assert!(state.session_names().is_empty());
    let state = load_sessions_state(None, None);
    assert!(state.session_names().is_empty());
}

#[test]
fn appointed_bookmarks_mut_changes_only_that_session() {
    let mut sessions = one_session("a", &["/1"]);
    sessions.insert_session("b".to_string(), bookmarks(&["/2"]));
    appointed_bookmarks_mut(&mut sessions, "b").expect("b").bookmarks.push("/3".to_string());
    assert_eq!(list_of(&sessions, "a"), vec!["/1".to_string()]);
    assert_eq!(list_of(&sessions, "b"), vec!["/2".to_string(), "/3".to_string()]);
    assert!(appointed_bookmarks_mut(&mut sessions, "c").is_err());
}

#[test]
fn index_parsing_matches_usize_parsing() {
    assert_eq!(parse_index(Some("+7")).expect("plus sign"), 7);
    assert_eq!(parse_index(Some("007")).expect("zeros"), 7);
    assert_eq!(parse_index(None).unwrap_err().message, "missing bookmark index");
    for bad in ["", "+", "-1", " 1", "1a", "18446744073709551616"] {
        assert_eq!(
            parse_index(Some(bad)).unwrap_err().message,
            "bookmark index must be a non-negative integer"
        );
        assert_eq!(parse_usize(bad), bad.parse::<usize>().ok());
    }
    assert_eq!(parse_usize("18446744073709551615"), Some(usize::MAX));
    assert_eq!(max_bookmarks_from(Some("+3")), 3);
}

#[test]
fn decimal_rendering_round_trips() {
    for n in [0usize, 7, 10, 99, 1234567, usize::MAX] {
        let s = usize_to_decimal(n);
        assert_eq!(s, n.to_string());
        assert_eq!(parse_usize(&s), Some(n));
    }
}

#[test]
fn trimming_matches_str_trim() {
    for s in ["", "  ", "a", " a b ", "\u{3000}x\u{85}", "\t\n\r x"] {
        assert_eq!(trim_text(s), s.trim());
    }
}

#[test]
fn errors_carry_their_message() {
    let e = CliError::new("boom".to_string());
    assert_eq!(e.message, "boom");
}

#[test]
fn insertion_order_is_kept_in_listings() {
    let mut sessions = one_session("web", &[]);
    for target in ["/c", "/a", "/b"] {
        assert!(add_bookmark(&mut sessions, "web", target, "/", 10).is_ok());
    }
    assert_eq!(
        list_bookmarks(&sessions, "web").expect("list"),
        vec!["[0] /c".to_string(), "[1] /a".to_string(), "[2] /b".to_string()]
    );
}

#[test]
fn a_stored_bookmark_names_itself_when_added_again() {
    let mut sessions = one_session("web", &[]);
    let stored = match add_bookmark(&mut sessions, "web", "x/../y/./z", "/w", 10) {
        Ok(AddOutcome::Added { bookmark, .. }) => bookmark,
        other => panic!("unexpected {:?}", other),
    };
    assert_eq!(stored, "/w/y/z");
    assert_eq!(normalize_path(&stored, "/elsewhere"), stored);
    assert!(matches!(
        add_bookmark(&mut sessions, "web", &stored, "/elsewhere", 10),
        Ok(AddOutcome::AlreadyBookmarked { .. })
    ));
}

#[test]
fn prompts_are_skipped_when_there_is_nothing_to_choose() {
    let sessions = one_session("web", &[]);
    assert!(remove_prompt_lines(&sessions, "web").expect("web").is_none());
    assert_eq!(
        remove_prompt_lines(&sessions, "api").unwrap_err().message,
        "selected session 'api' does not exist"
    );
    let sessions = one_session("web", &["/a", "/b"]);
    assert_eq!(
        remove_prompt_lines(&sessions, "web").expect("web"),
        Some(vec!["[0] /a".to_string(), "[1] /b".to_string()])
    );
    assert_eq!(choose_prompt_lines(&sessions), Some(vec!["[0] web".to_string()]));
    assert!(choose_prompt_lines(&SessionsState::new()).is_none());
}
