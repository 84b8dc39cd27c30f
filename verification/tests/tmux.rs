use bmersive::shell::shell_function;
use bmersive::state::{BookmarkState, SessionsState};
use bmersive::tmux::{
    default_tmux_mode, plan_tmux, strings, tmux_outside_panes, tmux_outside_panes_args,
    tmux_outside_windows, tmux_outside_windows_args, tmux_panes_actions, tmux_session_name,
    tmux_step, tmux_windows_actions, TmuxAction, TmuxCommand, TmuxMode, TmuxPlan,
};

#[test]
fn default_tmux_mode_is_panes() {
    assert_eq!(default_tmux_mode(), "panes");
}

#[test]
fn shell_function_chooses_and_delegates_sessions() {
    let shell = shell_function();
    assert!(shell.contains("if ! bmersive session current >/dev/null 2>&1"));
    assert!(shell.contains("bmersive session choose || return"));
    assert!(shell.contains("bmersive session \"$@\""));
    assert!(shell.contains("--no-jump"));
    assert!(shell.contains(
        "_bmersive_target=\"$(bmersive path 0 2>/dev/null)\" && cd \"$_bmersive_target\""
    ));
    assert!(shell.contains("bmersive add \"$@\""));
    assert!(shell.contains("cd \"$(bmersive path \"$1\")\""));
}

#[test]
fn init_outputs_shell_wrapper() {
    let stdout = format!("{}\n", shell_function());
    assert!(stdout.contains("b()"));
    assert!(stdout.contains("bmersive ls"));
    assert!(stdout.contains("cd \"$(bmersive path \"$1\")\""));
}

#[test]
fn tmux_windows_inside_current_session_creates_windows() {
    let bookmarks = vec!["/work/api".to_string(), "/work/web".to_string()];
    assert_eq!(
        tmux_windows_actions("api", &bookmarks, true),
        vec![
            TmuxAction::NewWindow {
                target: None,
                cwd: "/work/api".to_string(),
                name: "api".to_string()
            },
            TmuxAction::NewWindow {
                target: None,
                cwd: "/work/web".to_string(),
                name: "web".to_string()
            }
        ]
    );
}

#[test]
fn tmux_windows_outside_checks_session_then_creates_and_attaches() {
    let bookmarks = vec!["/work/api".to_string(), "/work/web".to_string()];
    assert_eq!(
        tmux_windows_actions("api", &bookmarks, false),
        vec![
            TmuxAction::HasSession {
                session: "bmersive-api".to_string()
            },
            TmuxAction::NewSessionDetached {
                session: "bmersive-api".to_string(),
                cwd: "/work/api".to_string(),
                name: "api".to_string()
            },
            TmuxAction::NewWindow {
                target: None,
                cwd: "/work/web".to_string(),
                name: "web".to_string()
            },
            TmuxAction::AttachSession {
                session: "bmersive-api".to_string()
            }
        ]
    );
}

#[test]
fn tmux_panes_inside_splits_additional_bookmarks_and_tiles() {
    let bookmarks = vec!["/work/api".to_string(), "/work/web".to_string()];
    assert_eq!(
        tmux_panes_actions("api", &bookmarks, true),
        vec![
            TmuxAction::NewWindow {
                target: None,
                cwd: "/work/api".to_string(),
                name: "api".to_string()
            },
            TmuxAction::SplitWindow {
                target: None,
                cwd: "/work/web".to_string()
            },
            TmuxAction::SelectLayoutTiled { target: None }
        ]
    );
}

#[test]
fn tmux_panes_outside_targets_created_session() {
    let bookmarks = vec!["/work/api".to_string(), "/work/web".to_string()];
    assert_eq!(
        tmux_panes_actions("api", &bookmarks, false),
        vec![
            TmuxAction::HasSession {
                session: "bmersive-api".to_string()
            },
            TmuxAction::NewSessionDetached {
                session: "bmersive-api".to_string(),
                cwd: "/work/api".to_string(),
                name: "api".to_string()
            },
            TmuxAction::SplitWindow {
                target: None,
                cwd: "/work/web".to_string()
            },
            TmuxAction::SelectLayoutTiled { target: None },
            TmuxAction::AttachSession {
                session: "bmersive-api".to_string()
            }
        ]
    );
}

#[test]
fn tmux_outside_windows_uses_single_command_sequence() {
    let bookmarks = vec!["/work/api".to_string(), "/work/web".to_string()];
    assert_eq!(
        tmux_outside_windows_args("api", &bookmarks),
        vec![
            "new-session",
            "-d",
            "-s",
            "bmersive-api",
            "-c",
            "/work/api",
            "-n",
            "api",
            ";",
            "new-window",
            "-d",
            "-c",
            "/work/web",
            "-n",
            "web",
            ";",
            "attach-session",
            "-t",
            "bmersive-api"
        ]
    );
}

#[test]
fn tmux_outside_panes_uses_single_command_sequence_for_four_bookmarks() {
    let bookmarks = vec![
        "/work/api".to_string(),
        "/work/web".to_string(),
        "/work/worker".to_string(),
        "/work/infra".to_string(),
    ];
    assert_eq!(
        tmux_outside_panes_args("api", &bookmarks),
        vec![
            "new-session",
            "-d",
            "-s",
            "bmersive-api",
            "-c",
            "/work/api",
            "-n",
            "api",
            ";",
            "split-window",
            "-c",
            "/work/web",
            ";",
            "split-window",
            "-c",
            "/work/worker",
            ";",
            "split-window",
            "-c",
            "/work/infra",
            ";",
            "select-layout",
            "tiled",
            ";",
            "attach-session",
            "-t",
            "bmersive-api"
        ]
    );
}

// ----- further cases -----

#[test]
fn empty_bookmark_lists_build_nothing_outside() {
    let none: Vec<String> = Vec::new();
    assert!(tmux_outside_windows_args("api", &none).is_empty());
    assert!(tmux_outside_panes_args("api", &none).is_empty());
    assert!(tmux_panes_actions("api", &none, false).is_empty());
    assert_eq!(
        tmux_panes_actions("api", &none, true),
        vec![TmuxAction::SelectLayoutTiled { target: None }]
    );
    assert_eq!(
        tmux_windows_actions("api", &none, false),
        vec![
            TmuxAction::HasSession { session: "bmersive-api".to_string() },
            TmuxAction::AttachSession { session: "bmersive-api".to_string() }
        ]
    );
}

#[test]
fn an_existing_session_is_only_attached() {
    let bookmarks = vec!["/work/api".to_string(), "/work/web".to_string()];
    assert_eq!(tmux_outside_windows("api", &bookmarks, true), vec!["attach-session", "-t", "bmersive-api"]);
    assert_eq!(tmux_outside_panes("api", &bookmarks, true), vec!["attach-session", "-t", "bmersive-api"]);
    assert_eq!(tmux_outside_panes("api", &bookmarks, false), tmux_outside_panes_args("api", &bookmarks));
    assert_eq!(tmux_outside_windows("api", &bookmarks, false), tmux_outside_windows_args("api", &bookmarks));
}

fn run_args(c: TmuxCommand) -> Option<Vec<String>> {
    match c {
        TmuxCommand::Run { args } => Some(args),
        _ => None,
    }
}

#[test]
fn steps_skip_creation_once_the_session_exists() {
    let bookmarks = vec!["/work/api".to_string(), "/work/web".to_string()];
    let actions = tmux_windows_actions("api", &bookmarks, false);
    match tmux_step(false, &actions[0]) {
        TmuxCommand::Probe { args } => assert_eq!(args, vec!["has-session", "-t", "bmersive-api"]),
        other => panic!("unexpected {:?}", other),
    }
    assert!(matches!(tmux_step(true, &actions[1]), TmuxCommand::Skip));
    assert!(matches!(tmux_step(true, &actions[2]), TmuxCommand::Skip));
    assert_eq!(run_args(tmux_step(true, &actions[3])), Some(strings(["attach-session", "-t", "bmersive-api"])));
    assert_eq!(
        run_args(tmux_step(false, &actions[1])),
        Some(strings(["new-session", "-d", "-s", "bmersive-api", "-c", "/work/api", "-n", "api"]))
    );
    assert_eq!(
        run_args(tmux_step(false, &actions[2])),
        Some(strings(["new-window", "-c", "/work/web", "-n", "web"]))
    );
    let targeted = TmuxAction::SplitWindow { target: Some("s:1".to_string()), cwd: "/w".to_string() };
    assert_eq!(run_args(tmux_step(false, &targeted)), Some(strings(["split-window", "-t", "s:1", "-c", "/w"])));
    let tiled = TmuxAction::SelectLayoutTiled { target: None };
    assert_eq!(run_args(tmux_step(false, &tiled)), Some(strings(["select-layout", "tiled"])));
}

#[test]
fn plan_follows_mode_and_place() {
    let mut sessions = SessionsState::new();
    sessions.insert_session(
        "web".to_string(),
        BookmarkState { bookmarks: vec!["/w/a".to_string(), "/w/b".to_string()] },
    );
    sessions.insert_session("empty".to_string(), BookmarkState { bookmarks: Vec::new() });
    assert!(matches!(plan_tmux(None, false, &sessions, "web"), Ok(TmuxPlan::OutsidePanes)));
    assert!(matches!(plan_tmux(Some(TmuxMode::Windows), false, &sessions, "web"), Ok(TmuxPlan::OutsideWindows)));
    assert!(matches!(plan_tmux(None, true, &sessions, "empty"), Ok(TmuxPlan::NoBookmarks)));
    match plan_tmux(Some(TmuxMode::Windows), true, &sessions, "web") {
        Ok(TmuxPlan::Actions { actions }) => assert_eq!(actions.len(), 2),
        other => panic!("unexpected {:?}", other),
    }
    match plan_tmux(None, true, &sessions, "web") {
        Ok(TmuxPlan::Actions { actions }) => {
            assert_eq!(actions, tmux_panes_actions("web", &vec!["/w/a".to_string(), "/w/b".to_string()], true))
        }
        other => panic!("unexpected {:?}", other),
    }
    assert_eq!(
        plan_tmux(None, true, &sessions, "gone").unwrap_err().message,
        "selected session 'gone' does not exist"
    );
    assert_eq!(TmuxMode::Windows.as_str(), "windows");
    assert_eq!(TmuxMode::Panes.as_str(), "panes");
    assert_eq!(tmux_session_name("web"), "bmersive-web");
}
