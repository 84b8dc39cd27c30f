//! What each bookmark and session command decides, given the state that
//! was read and the arguments that were passed.
use vstd::prelude::*;
use vstd::string::*;

use crate::errors::{no_session_error, no_session_message, CliError};
use crate::paths::{is_absolute, join_path, join_path_str, normal_form, normalize_absolute_path, views};
use crate::state::{BookmarkState, SessionsState};
use crate::text::{decimal, parse_usize, parse_usize_spec, trim, trim_text, usize_to_decimal};

verus! {

/// The number of bookmarks a session keeps when nothing else is configured.
pub const DEFAULT_MAX_BOOKMARKS: usize = 10;

/// The session that bookmarks of the single-session layout are imported into.
pub open spec fn default_imported_session() -> Seq<char> {
    "default"@
}

// ----- messages -----

/// The refusal for an appointed session that is not saved.
pub open spec fn missing_selected_message(name: Seq<char>) -> Seq<char> {
    "selected session '"@ + name + "' does not exist"@
}

/// The refusal for a full bookmark list.
pub open spec fn list_full_message(max: nat) -> Seq<char> {
    "bookmark list is full ("@ + decimal(max) + " max). Remove one with: b rm"@
}

/// The refusal for a bookmark index past the end of the list.
pub open spec fn missing_index_message(index: nat) -> Seq<char> {
    "bookmark index "@ + decimal(index) + " does not exist"@
}

/// The refusal for a session name outside `[a-z0-9-]+`.
pub open spec fn invalid_name_message() -> Seq<char> {
    "session name must use lowercase letters, numbers, and hyphens"@
}

/// The refusal for creating a session that is already saved.
pub open spec fn session_exists_message(name: Seq<char>) -> Seq<char> {
    "session '"@ + name + "' already exists"@
}

/// The refusal for using a session that is not saved.
pub open spec fn session_missing_message(name: Seq<char>) -> Seq<char> {
    "session '"@ + name + "' does not exist"@
}

/// The refusal for a session index past the end of the listing.
pub open spec fn missing_session_index_message(index: nat) -> Seq<char> {
    "session index "@ + decimal(index) + " does not exist"@
}

/// The refusal when no index was given.
pub open spec fn no_index_message() -> Seq<char> {
    "missing bookmark index"@
}

/// The refusal for an index that is not a non-negative integer.
pub open spec fn bad_index_message() -> Seq<char> {
    "bookmark index must be a non-negative integer"@
}

/// A listing line: the index in brackets, a space, the item.
pub open spec fn indexed_line(index: nat, item: Seq<char>) -> Seq<char> {
    "["@ + decimal(index) + "] "@ + item
}

/// The listing lines of `items`, one per item, numbered from 0.
pub open spec fn indexed_lines(items: Seq<Seq<char>>) -> Seq<Seq<char>> {
    Seq::new(items.len(), |i: int| indexed_line(i as nat, items[i]))
}

/// The line that reports where `b session use` jumps.
pub open spec fn jump_line(first: Option<Seq<char>>) -> Seq<char> {
    match first {
        Some(b) => "Jumping to [0] "@ + b,
        None => "No bookmark at [0] to jump to. Add one with: b add"@,
    }
}

fn selected_missing_error(name: &str) -> (e: CliError)
    ensures
        e.message@ == missing_selected_message(name@),
{
    CliError::framed("selected session '", name, "' does not exist")
}

fn numbered_error(prefix: &str, n: usize, suffix: &str) -> (e: CliError)
    ensures
        e.message@ == prefix@ + decimal(n as nat) + suffix@,
{
    let d = usize_to_decimal(n);
    CliError::framed(prefix, d.as_str(), suffix)
}

/// The listing line for `item` at `index`.
pub fn indexed_line_str(index: usize, item: &str) -> (r: String)
    ensures
        r@ == indexed_line(index as nat, item@),
{
    let mut r = String::from_str("[");
    let d = usize_to_decimal(index);
    r.append(d.as_str());
    r.append("] ");
    r.append(item);
    r
}

/// The listing lines of `items`.
pub fn indexed_lines_of(items: &Vec<String>) -> (r: Vec<String>)
    ensures
        views(r@) == indexed_lines(views(items@)),
{
    let mut r: Vec<String> = Vec::new();
    let mut i: usize = 0;
    while i < items.len()
        invariant
            i <= items.len(),
            views(r@) == indexed_lines(views(items@)).take(i as int),
        decreases items.len() - i,
    {
        let ghost before = r@;
        let line = indexed_line_str(i, items[i].as_str());
        let ghost lv = line@;
        r.push(line);
        assert(views(r@) =~= views(before).push(lv));
        assert(views(items@)[i as int] == items@[i as int]@);
        i = i + 1;
        assert(views(r@) =~= indexed_lines(views(items@)).take(i as int));
    }
    assert(indexed_lines(views(items@)).take(i as int) =~= indexed_lines(views(items@)));
    r
}

// ----- arguments and settings -----

/// A character allowed in a session name.
pub open spec fn session_name_char(c: char) -> bool {
    ('a' <= c && c <= 'z') || ('0' <= c && c <= '9') || c == '-'
}

/// A session name: lowercase ASCII letters, digits and hyphens, at least one.
pub open spec fn valid_session_name(name: Seq<char>) -> bool {
    name.len() > 0 && forall|i: int| 0 <= i < name.len() ==> session_name_char(#[trigger] name[i])
}

/// Accepts exactly the valid session names.
pub fn validate_session_name(name: &str) -> (r: Result<(), CliError>)
    ensures
        valid_session_name(name@) ==> r is Ok,
        !valid_session_name(name@) ==> (r matches Err(e) && e.message@ == invalid_name_message()),
{
    let n = name.unicode_len();
    let mut valid = n > 0;
    let mut i: usize = 0;
    while i < n && valid
        invariant
            i <= n,
            n == name@.len(),
            valid == (n > 0 && forall|j: int| 0 <= j < i ==> session_name_char(#[trigger] name@[j])),
        decreases n - i,
    {
        let c = name.get_char(i);
        if !(('a' <= c && c <= 'z') || ('0' <= c && c <= '9') || c == '-') {
            valid = false;
        }
        i = i + 1;
    }
    if valid {
        Ok(())
    } else {
        Err(CliError::new(String::from_str("session name must use lowercase letters, numbers, and hyphens")))
    }
}

/// The bookmark index in `index_arg`, which must be present and parse as
/// a `usize`.
pub fn parse_index(index_arg: Option<&str>) -> (r: Result<usize, CliError>)
    ensures
        match index_arg {
            None => r matches Err(e) && e.message@ == no_index_message(),
            Some(s) => match parse_usize_spec(s@) {
                Some(n) => r == Ok::<usize, CliError>(n as usize),
                None => r matches Err(e) && e.message@ == bad_index_message(),
            },
        },
{
    match index_arg {
        None => Err(CliError::new(String::from_str("missing bookmark index"))),
        Some(s) => match parse_usize(s) {
            Some(n) => Ok(n),
            None => Err(CliError::new(String::from_str("bookmark index must be a non-negative integer"))),
        },
    }
}

/// The configured maximum: a positive integer setting, else the default.
pub open spec fn max_bookmarks_spec(value: Option<Seq<char>>) -> nat {
    match value {
        Some(s) => match parse_usize_spec(s) {
            Some(n) => if n > 0 { n } else { DEFAULT_MAX_BOOKMARKS as nat },
            None => DEFAULT_MAX_BOOKMARKS as nat,
        },
        None => DEFAULT_MAX_BOOKMARKS as nat,
    }
}

/// The bookmark limit from the `BMERSIVE_MAX_BOOKMARKS` setting.
pub fn max_bookmarks_from(value: Option<&str>) -> (r: usize)
    ensures
        r as nat == max_bookmarks_spec(
            match value {
                Some(s) => Some(s@),
                None => None,
            },
        ),
        r > 0,
{
    match value {
        Some(s) => match parse_usize(s) {
            Some(n) => if n > 0 { n } else { DEFAULT_MAX_BOOKMARKS },
            None => DEFAULT_MAX_BOOKMARKS,
        },
        None => DEFAULT_MAX_BOOKMARKS,
    }
}

/// The bookmark that a target names: absolute targets as they are,
/// relative ones under `cwd`, in either case lexically normalized.
pub open spec fn target_path(target: Seq<char>, cwd: Seq<char>) -> Seq<char> {
    if is_absolute(target) {
        normal_form(target)
    } else {
        normal_form(join_path(cwd, target))
    }
}

/// The normalized absolute form of `path`, taken relative to `cwd` when it
/// is not absolute.
pub fn normalize_path(path: &str, cwd: &str) -> (r: String)
    ensures
        r@ == target_path(path@, cwd@),
{
    if path.unicode_len() > 0 && path.get_char(0) == '/' {
        normalize_absolute_path(path)
    } else {
        let joined = join_path_str(cwd, path);
        normalize_absolute_path(joined.as_str())
    }
}

// ----- the appointed session -----

/// The appointed session, from the contents of the appointment file
/// (`None` where there is no file): the trimmed contents, unless empty.
pub fn load_appointed_session(contents: Option<&str>) -> (r: Result<String, CliError>)
    ensures
        match contents {
            None => r matches Err(e) && e.message@ == no_session_message(),
            Some(c) => if trim(c@).len() == 0 {
                r matches Err(e) && e.message@ == no_session_message()
            } else {
                r matches Ok(n) && n@ == trim(c@)
            },
        },
{
    match contents {
        None => Err(no_session_error()),
        Some(c) => {
            let t = trim_text(c);
            if t.as_str().unicode_len() == 0 {
                Err(no_session_error())
            } else {
                Ok(t)
            }
        },
    }
}

/// The contents of the appointment file for the session `name`.
pub fn save_appointed_session(name: &str) -> (r: String)
    ensures
        r@ == name@.push('\n'),
{
    let mut r = String::from_str(name);
    r.append("\n");
    proof {
        reveal_strlit("\n");
    }
    assert(r@ =~= name@.push('\n'));
    r
}

// ----- loading saved sessions -----

/// The sessions that an old single-session bookmark file turns into: a
/// `default` session holding its bookmarks, or nothing if it had none.
pub open spec fn imported_sessions(legacy: Seq<Seq<char>>) -> Map<Seq<char>, Seq<Seq<char>>> {
    if legacy.len() == 0 {
        Map::empty()
    } else {
        Map::empty().insert(default_imported_session(), legacy)
    }
}

/// Imports the bookmarks of the single-session layout.
pub fn import_legacy_state(legacy: BookmarkState) -> (r: SessionsState)
    ensures
        r.wf(),
        r@ == imported_sessions(legacy@),
{
    let mut state = SessionsState::new();
    if legacy.bookmarks.len() > 0 {
        state.insert_session(String::from_str("default"), legacy);
    }
    state
}

/// The saved sessions: those stored, or, where no sessions file exists,
/// those imported from the single-session bookmark file (`None` where
/// that file does not exist either).
pub fn load_sessions_state(stored: Option<SessionsState>, legacy: Option<BookmarkState>) -> (r:
    SessionsState)
    requires
        stored matches Some(s) ==> s.wf(),
    ensures
        r.wf(),
        match stored {
            Some(s) => r@ == s@,
            None => r@ == imported_sessions(
                match legacy {
                    Some(b) => b@,
                    None => Seq::empty(),
                },
            ),
        },
{
    match stored {
        Some(s) => s,
        None => match legacy {
            Some(b) => import_legacy_state(b),
            None => import_legacy_state(BookmarkState::new()),
        },
    }
}

// ----- bookmarks of the appointed session -----

/// The bookmarks of the appointed session `name`.
pub fn appointed_bookmarks<'a>(state: &'a SessionsState, name: &str) -> (r: Result<
    &'a BookmarkState,
    CliError,
>)
    requires
        state.wf(),
    ensures
        state@.dom().contains(name@) ==> (r matches Ok(b) && b@ == state@[name@]),
        !state@.dom().contains(name@) ==> (r matches Err(e) && e.message@ == missing_selected_message(
            name@,
        )),
{
    match state.get(name) {
        Some(b) => Ok(b),
        None => Err(selected_missing_error(name)),
    }
}

/// The bookmarks of the appointed session `name`, to change in place.
pub fn appointed_bookmarks_mut<'a>(state: &'a mut SessionsState, name: &str) -> (r: Result<
    &'a mut BookmarkState,
    CliError,
>)
    requires
        old(state).wf(),
    ensures
        old(state)@.dom().contains(name@) ==> (r matches Ok(b) && (*b)@ == old(state)@[name@]
            && final(state).wf() && final(state)@ == old(state)@.insert(name@, final(b)@)),
        !old(state)@.dom().contains(name@) ==> (r matches Err(e) && e.message@
            == missing_selected_message(name@) && *final(state) == *old(state)),
{
    match state.get_mut(name) {
        Some(b) => Ok(b),
        None => Err(selected_missing_error(name)),
    }
}

/// How `add` turns out, by the state before it and the normalized path.
pub enum AddVerdict {
    MissingSession,
    AlreadyBookmarked,
    ListFull,
    Added,
}

/// Which way `add` of path `p` to session `name` goes, with limit `max`.
pub open spec fn add_verdict(
    m: Map<Seq<char>, Seq<Seq<char>>>,
    name: Seq<char>,
    p: Seq<char>,
    max: nat,
) -> AddVerdict {
    if !m.dom().contains(name) {
        AddVerdict::MissingSession
    } else if m[name].contains(p) {
        AddVerdict::AlreadyBookmarked
    } else if m[name].len() >= max {
        AddVerdict::ListFull
    } else {
        AddVerdict::Added
    }
}

/// The sessions after `add`: `p` appended to session `name` when it was
/// added, otherwise unchanged.
pub open spec fn after_add(
    m: Map<Seq<char>, Seq<Seq<char>>>,
    name: Seq<char>,
    p: Seq<char>,
    max: nat,
) -> Map<Seq<char>, Seq<Seq<char>>> {
    if add_verdict(m, name, p, max) is Added {
        m.insert(name, m[name].push(p))
    } else {
        m
    }
}

/// How `rm` turns out.
pub enum RemoveVerdict {
    MissingSession,
    NothingToRemove,
    MissingIndex,
    Removed,
}

/// Which way `rm` of `index` from session `name` goes.
pub open spec fn remove_verdict(
    m: Map<Seq<char>, Seq<Seq<char>>>,
    name: Seq<char>,
    index: nat,
) -> RemoveVerdict {
    if !m.dom().contains(name) {
        RemoveVerdict::MissingSession
    } else if m[name].len() == 0 {
        RemoveVerdict::NothingToRemove
    } else if index >= m[name].len() {
        RemoveVerdict::MissingIndex
    } else {
        RemoveVerdict::Removed
    }
}

/// The sessions after `rm`: the bookmark at `index` taken out of session
/// `name`, the others keeping their order, when it was removed.
pub open spec fn after_remove(
    m: Map<Seq<char>, Seq<Seq<char>>>,
    name: Seq<char>,
    index: nat,
) -> Map<Seq<char>, Seq<Seq<char>>> {
    if remove_verdict(m, name, index) is Removed {
        m.insert(name, m[name].remove(index as int))
    } else {
        m
    }
}

/// Whether `v` holds a string equal to `s`.
fn contains_string(v: &Vec<String>, s: &String) -> (r: bool)
    ensures
        r == views(v@).contains(s@),
{
    let mut i: usize = 0;
    while i < v.len()
        invariant
            i <= v.len(),
            forall|j: int| 0 <= j < i ==> v@[j]@ != s@,
        decreases v.len() - i,
    {
        if v[i] == *s {
            assert(views(v@)[i as int] == s@);
            return true;
        }
        i = i + 1;
    }
    proof {
        if views(v@).contains(s@) {
            let j = choose|j: int| 0 <= j < views(v@).len() && views(v@)[j] == s@;
            assert(v@[j]@ == s@);
        }
    }
    false
}

/// What `add` did.
#[derive(Debug)]
pub enum AddOutcome {
    /// The normalized path was already in the list, which is unchanged.
    AlreadyBookmarked { bookmark: String },
    /// The normalized path was appended at `index`.
    Added { index: usize, bookmark: String },
}

/// Adds the normalized `target` to the appointed session `session_name`,
/// unless it is already there or the list holds `max` bookmarks.
pub fn add_bookmark(
    sessions: &mut SessionsState,
    session_name: &str,
    target: &str,
    cwd: &str,
    max: usize,
) -> (r: Result<AddOutcome, CliError>)
    requires
        old(sessions).wf(),
    ensures
        final(sessions).wf(),
        final(sessions)@ == after_add(old(sessions)@, session_name@, target_path(target@, cwd@), max as nat),
        match add_verdict(old(sessions)@, session_name@, target_path(target@, cwd@), max as nat) {
            AddVerdict::MissingSession => r matches Err(e) && e.message@ == missing_selected_message(
                session_name@,
            ),
            AddVerdict::AlreadyBookmarked => r matches Ok(AddOutcome::AlreadyBookmarked { bookmark })
                && bookmark@ == target_path(target@, cwd@),
            AddVerdict::ListFull => r matches Err(e) && e.message@ == list_full_message(max as nat),
            AddVerdict::Added => r matches Ok(AddOutcome::Added { index, bookmark }) && index
                == old(sessions)@[session_name@].len() && bookmark@ == target_path(target@, cwd@),
        },
{
    let bookmark = normalize_path(target, cwd);
    let ghost old_map = sessions@;
    let state = match appointed_bookmarks_mut(sessions, session_name) {
        Ok(b) => b,
        Err(e) => return Err(e),
    };
    proof {
        assert(old_map.insert(session_name@, old_map[session_name@]) =~= old_map);
    }
    if contains_string(&state.bookmarks, &bookmark) {
        return Ok(AddOutcome::AlreadyBookmarked { bookmark });
    }
    if state.bookmarks.len() >= max {
        return Err(numbered_error("bookmark list is full (", max, " max). Remove one with: b rm"));
    }
    let ghost before = state.bookmarks@;
    state.bookmarks.push(bookmark.clone());
    assert(views(state.bookmarks@) =~= views(before).push(bookmark@));
    let index = state.bookmarks.len() - 1;
    Ok(AddOutcome::Added { index, bookmark })
}

/// What `rm` did.
#[derive(Debug)]
pub enum RemoveOutcome {
    /// The list was empty; nothing changed.
    NothingToRemove,
    /// The bookmark at `index` was taken out.
    Removed { index: usize, bookmark: String },
}

/// Removes the bookmark at `index` from the appointed session, keeping the
/// order of the others.
pub fn remove_bookmark(sessions: &mut SessionsState, session_name: &str, index: usize) -> (r:
    Result<RemoveOutcome, CliError>)
    requires
        old(sessions).wf(),
    ensures
        final(sessions).wf(),
        final(sessions)@ == after_remove(old(sessions)@, session_name@, index as nat),
        match remove_verdict(old(sessions)@, session_name@, index as nat) {
            RemoveVerdict::MissingSession => r matches Err(e) && e.message@
                == missing_selected_message(session_name@),
            RemoveVerdict::NothingToRemove => r matches Ok(RemoveOutcome::NothingToRemove),
            RemoveVerdict::MissingIndex => r matches Err(e) && e.message@ == missing_index_message(
                index as nat,
            ),
            RemoveVerdict::Removed => r matches Ok(RemoveOutcome::Removed { index: i, bookmark })
                && i == index && bookmark@ == old(sessions)@[session_name@][index as int],
        },
{
    let ghost old_map = sessions@;
    let state = match appointed_bookmarks_mut(sessions, session_name) {
        Ok(b) => b,
        Err(e) => return Err(e),
    };
    proof {
        assert(old_map.insert(session_name@, old_map[session_name@]) =~= old_map);
    }
    if state.bookmarks.len() == 0 {
        return Ok(RemoveOutcome::NothingToRemove);
    }
    if index >= state.bookmarks.len() {
        return Err(numbered_error("bookmark index ", index, " does not exist"));
    }
    let ghost before = state.bookmarks@;
    let bookmark = state.bookmarks.remove(index);
    assert(views(state.bookmarks@) =~= views(before).remove(index as int));
    Ok(RemoveOutcome::Removed { index, bookmark })
}

/// The bookmark at `index` of the appointed session.
pub fn bookmark_path(sessions: &SessionsState, session_name: &str, index: usize) -> (r: Result<
    String,
    CliError,
>)
    requires
        sessions.wf(),
    ensures
        !sessions@.dom().contains(session_name@) ==> (r matches Err(e) && e.message@
            == missing_selected_message(session_name@)),
        sessions@.dom().contains(session_name@) ==> ({
            let b = sessions@[session_name@];
            if index < b.len() {
                r matches Ok(p) && p@ == b[index as int]
            } else {
                r matches Err(e) && e.message@ == missing_index_message(index as nat)
            }
        }),
{
    let state = match appointed_bookmarks(sessions, session_name) {
        Ok(b) => b,
        Err(e) => return Err(e),
    };
    if index < state.bookmarks.len() {
        Ok(state.bookmarks[index].clone())
    } else {
        Err(numbered_error("bookmark index ", index, " does not exist"))
    }
}

/// The lines that `ls` prints for the appointed session.
pub fn list_bookmarks(sessions: &SessionsState, session_name: &str) -> (r: Result<
    Vec<String>,
    CliError,
>)
    requires
        sessions.wf(),
    ensures
        !sessions@.dom().contains(session_name@) ==> (r matches Err(e) && e.message@
            == missing_selected_message(session_name@)),
        sessions@.dom().contains(session_name@) ==> ({
            let b = sessions@[session_name@];
            r matches Ok(lines) && views(lines@) == if b.len() == 0 {
                seq!["No bookmarks. Add one with: b add"@]
            } else {
                indexed_lines(b)
            }
        }),
{
    let state = match appointed_bookmarks(sessions, session_name) {
        Ok(b) => b,
        Err(e) => return Err(e),
    };
    if state.bookmarks.len() == 0 {
        let mut lines: Vec<String> = Vec::new();
        lines.push(String::from_str("No bookmarks. Add one with: b add"));
        assert(views(lines@) =~= seq!["No bookmarks. Add one with: b add"@]);
        Ok(lines)
    } else {
        Ok(indexed_lines_of(&state.bookmarks))
    }
}

// ----- sessions -----

/// Saves a new, empty session `name`.
pub fn create_session(state: &mut SessionsState, name: &str) -> (r: Result<(), CliError>)
    requires
        old(state).wf(),
    ensures
        final(state).wf(),
        !valid_session_name(name@) ==> (r matches Err(e) && e.message@ == invalid_name_message()
            && final(state)@ == old(state)@),
        valid_session_name(name@) && old(state)@.dom().contains(name@) ==> (r matches Err(e)
            && e.message@ == session_exists_message(name@) && final(state)@ == old(state)@),
        valid_session_name(name@) && !old(state)@.dom().contains(name@) ==> (r is Ok
            && final(state)@ == old(state)@.insert(name@, Seq::empty())),
{
    match validate_session_name(name) {
        Ok(()) => {},
        Err(e) => return Err(e),
    }
    if state.contains_session(name) {
        return Err(CliError::framed("session '", name, "' already exists"));
    }
    state.insert_session(String::from_str(name), BookmarkState::new());
    Ok(())
}

/// The lines that `session ls` prints.
pub fn list_sessions(state: &SessionsState) -> (r: Vec<String>)
    requires
        state.wf(),
    ensures
        views(r@) == if state.names().len() == 0 {
            seq!["No sessions. Create one with: b session new <name>"@]
        } else {
            indexed_lines(state.names())
        },
{
    let names = state.session_names();
    if names.len() == 0 {
        let mut lines: Vec<String> = Vec::new();
        lines.push(String::from_str("No sessions. Create one with: b session new <name>"));
        assert(views(lines@) =~= seq!["No sessions. Create one with: b session new <name>"@]);
        lines
    } else {
        indexed_lines_of(&names)
    }
}

/// The line that reports the jump into session `name`, unless jumping is
/// turned off.
pub fn print_jump_target(state: &SessionsState, name: &str, no_jump: bool) -> (r: Result<
    Option<String>,
    CliError,
>)
    requires
        state.wf(),
    ensures
        no_jump ==> r matches Ok(None),
        !no_jump && !state@.dom().contains(name@) ==> (r matches Err(e) && e.message@
            == missing_selected_message(name@)),
        !no_jump && state@.dom().contains(name@) ==> (r matches Ok(Some(line)) && line@ == jump_line(
            if state@[name@].len() > 0 {
                Some(state@[name@][0])
            } else {
                None
            },
        )),
{
    if no_jump {
        return Ok(None);
    }
    let bookmarks = match appointed_bookmarks(state, name) {
        Ok(b) => b,
        Err(e) => return Err(e),
    };
    if bookmarks.bookmarks.len() > 0 {
        let mut line = String::from_str("Jumping to [0] ");
        line.append(bookmarks.bookmarks[0].as_str());
        Ok(Some(line))
    } else {
        Ok(Some(String::from_str("No bookmark at [0] to jump to. Add one with: b add")))
    }
}

/// Checks that `name` may be appointed, and gives the jump line.
pub fn use_session(state: &SessionsState, name: &str, no_jump: bool) -> (r: Result<
    Option<String>,
    CliError,
>)
    requires
        state.wf(),
    ensures
        !valid_session_name(name@) ==> (r matches Err(e) && e.message@ == invalid_name_message()),
        valid_session_name(name@) && !state@.dom().contains(name@) ==> (r matches Err(e)
            && e.message@ == session_missing_message(name@)),
        valid_session_name(name@) && state@.dom().contains(name@) ==> (no_jump ==> r matches Ok(
            None,
        )) && (!no_jump ==> (r matches Ok(Some(line)) && line@ == jump_line(
            if state@[name@].len() > 0 {
                Some(state@[name@][0])
            } else {
                None
            },
        ))),
{
    match validate_session_name(name) {
        Ok(()) => {},
        Err(e) => return Err(e),
    }
    if !state.contains_session(name) {
        return Err(CliError::framed("session '", name, "' does not exist"));
    }
    print_jump_target(state, name, no_jump)
}

/// The session at `index` of the listing, and its jump line.
pub fn choose_session(state: &SessionsState, index: usize, no_jump: bool) -> (r: Result<
    (String, Option<String>),
    CliError,
>)
    requires
        state.wf(),
    ensures
        index >= state.names().len() ==> (r matches Err(e) && e.message@
            == missing_session_index_message(index as nat)),
        index < state.names().len() ==> ({
            let name = state.names()[index as int];
            r matches Ok((n, line)) && n@ == name && (no_jump ==> line is None) && (!no_jump ==> (
            line matches Some(l) && l@ == jump_line(
                if state@[name].len() > 0 {
                    Some(state@[name][0])
                } else {
                    None
                },
            )))
        }),
{
    let names = state.session_names();
    if index >= names.len() {
        return Err(numbered_error("session index ", index, " does not exist"));
    }
    let name = names[index].clone();
    proof {
        state.lemma_names();
        assert(views(names@)[index as int] == name@);
    }
    match print_jump_target(state, name.as_str(), no_jump) {
        Ok(line) => Ok((name, line)),
        Err(e) => Err(e),
    }
}

/// What `rm` without an index shows before asking for one: the numbered
/// bookmarks, or `None` where the session has none (then there is nothing
/// to remove and no question is asked).
pub fn remove_prompt_lines(sessions: &SessionsState, session_name: &str) -> (r: Result<
    Option<Vec<String>>,
    CliError,
>)
    requires
        sessions.wf(),
    ensures
        !sessions@.dom().contains(session_name@) ==> (r matches Err(e) && e.message@
            == missing_selected_message(session_name@)),
        sessions@.dom().contains(session_name@) ==> ({
            let b = sessions@[session_name@];
            if b.len() == 0 {
                r matches Ok(None)
            } else {
                r matches Ok(Some(lines)) && views(lines@) == indexed_lines(b)
            }
        }),
{
    let state = match appointed_bookmarks(sessions, session_name) {
        Ok(b) => b,
        Err(e) => return Err(e),
    };
    if state.bookmarks.len() == 0 {
        Ok(None)
    } else {
        Ok(Some(indexed_lines_of(&state.bookmarks)))
    }
}

/// What `session choose` shows before asking for an index: the numbered
/// session names, or `None` where there are no sessions to choose from.
pub fn choose_prompt_lines(state: &SessionsState) -> (r: Option<Vec<String>>)
    requires
        state.wf(),
    ensures
        state.names().len() == 0 ==> r is None,
        state.names().len() > 0 ==> (r matches Some(lines) && views(lines@) == indexed_lines(
            state.names(),
        )),
{
    let names = state.session_names();
    if names.len() == 0 {
        None
    } else {
        Some(indexed_lines_of(&names))
    }
}

} // verus!
