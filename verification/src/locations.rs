//! Where the state files live, given the environment.
use vstd::prelude::*;
use vstd::string::*;

use crate::errors::{no_session_error, no_session_message, CliError};
use crate::paths::{join_path, join_path_str};

verus! {

/// A setting that is present and not empty.
pub open spec fn set_value(v: Option<String>) -> Option<Seq<char>> {
    match v {
        Some(s) => if s@.len() > 0 { Some(s@) } else { None },
        None => None,
    }
}

/// The per-user fallback directory `/tmp/bmersive-<user>`, with `unknown`
/// standing in for a missing user name.
pub open spec fn tmp_user_dir(user: Option<String>) -> Seq<char> {
    "/tmp/bmersive-"@ + match user {
        Some(u) => u@,
        None => "unknown"@,
    }
}

/// Where the single-session bookmark file lives.
pub open spec fn state_path_spec(
    state_dir: Option<String>,
    runtime_dir: Option<String>,
    user: Option<String>,
) -> Seq<char> {
    match set_value(state_dir) {
        Some(d) => join_path(d, "bookmarks.json"@),
        None => match set_value(runtime_dir) {
            Some(r) => join_path(join_path(r, "bmersive"@), "bookmarks.json"@),
            None => join_path(tmp_user_dir(user), "bookmarks.json"@),
        },
    }
}

/// Where the saved sessions live.
pub open spec fn sessions_state_path_spec(
    xdg_state_home: Option<String>,
    home: Option<String>,
    user: Option<String>,
) -> Seq<char> {
    match set_value(xdg_state_home) {
        Some(x) => join_path(join_path(x, "bmersive"@), "sessions.json"@),
        None => match set_value(home) {
            Some(h) => join_path(
                join_path(join_path(join_path(h, ".local"@), "state"@), "bmersive"@),
                "sessions.json"@,
            ),
            None => join_path(tmp_user_dir(user), "sessions.json"@),
        },
    }
}

fn is_set(v: &Option<String>) -> (r: bool)
    ensures
        r == (set_value(*v) is Some),
{
    match v {
        Some(s) => s.as_str().unicode_len() > 0,
        None => false,
    }
}

fn tmp_user_dir_str(user: Option<String>) -> (r: String)
    ensures
        r@ == tmp_user_dir(user),
{
    let mut r = String::from_str("/tmp/bmersive-");
    match user {
        Some(u) => r.append(u.as_str()),
        None => r.append("unknown"),
    }
    r
}

/// The bookmark file of the single-session layout: under the shell's state
/// directory, else under the runtime directory, else under `/tmp`.
pub fn state_path_from(
    state_dir: Option<String>,
    runtime_dir: Option<String>,
    user: Option<String>,
) -> (r: String)
    ensures
        r@ == state_path_spec(state_dir, runtime_dir, user),
{
    if is_set(&state_dir) {
        let d = state_dir.unwrap();
        return join_path_str(d.as_str(), "bookmarks.json");
    }
    if is_set(&runtime_dir) {
        let r = runtime_dir.unwrap();
        let b = join_path_str(r.as_str(), "bmersive");
        return join_path_str(b.as_str(), "bookmarks.json");
    }
    let t = tmp_user_dir_str(user);
    join_path_str(t.as_str(), "bookmarks.json")
}

/// The saved-sessions file: under `XDG_STATE_HOME`, else under
/// `~/.local/state`, else under `/tmp`.
pub fn sessions_state_path_from(
    xdg_state_home: Option<String>,
    home: Option<String>,
    user: Option<String>,
) -> (r: String)
    ensures
        r@ == sessions_state_path_spec(xdg_state_home, home, user),
{
    if is_set(&xdg_state_home) {
        let x = xdg_state_home.unwrap();
        let b = join_path_str(x.as_str(), "bmersive");
        return join_path_str(b.as_str(), "sessions.json");
    }
    if is_set(&home) {
        let h = home.unwrap();
        let a = join_path_str(h.as_str(), ".local");
        let b = join_path_str(a.as_str(), "state");
        let c = join_path_str(b.as_str(), "bmersive");
        return join_path_str(c.as_str(), "sessions.json");
    }
    let t = tmp_user_dir_str(user);
    join_path_str(t.as_str(), "sessions.json")
}

/// The file that records this shell's appointed session; there is none
/// without a state directory.
pub fn appointment_path_from(state_dir: Option<String>) -> (r: Result<String, CliError>)
    ensures
        match set_value(state_dir) {
            Some(d) => r matches Ok(p) && p@ == join_path(d, "session"@),
            None => r matches Err(e) && e.message@ == no_session_message(),
        },
{
    if is_set(&state_dir) {
        let d = state_dir.unwrap();
        Ok(join_path_str(d.as_str(), "session"))
    } else {
        Err(no_session_error())
    }
}

} // verus!
