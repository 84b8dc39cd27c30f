//! Materializing a session's bookmarks as tmux windows or tiled panes:
//! the actions to take, the command lines that carry them out, and which
//! of them to run once it is known whether the session already exists.
use vstd::prelude::*;
use vstd::string::*;

use crate::commands::missing_selected_message;
use crate::errors::CliError;
use crate::paths::{basename, basename_of, views};
use crate::state::SessionsState;

verus! {

/// The layout that `tmux` builds.
#[derive(Clone, Copy, Debug, PartialEq, Eq)]
pub enum TmuxMode {
    /// One window per bookmark.
    Windows,
    /// One tiled pane per bookmark.
    Panes,
}

impl TmuxMode {
    /// The mode's name on the command line.
    pub fn as_str(self) -> (r: &'static str)
        ensures
            r@ == match self {
                TmuxMode::Windows => "windows"@,
                TmuxMode::Panes => "panes"@,
            },
    {
        match self {
            TmuxMode::Windows => "windows",
            TmuxMode::Panes => "panes",
        }
    }
}

/// The mode that `tmux` uses when none is given.
pub fn default_tmux_mode() -> (r: &'static str)
    ensures
        r@ == "panes"@,
{
    "panes"
}

/// One step of building a tmux workspace.
#[derive(Debug, PartialEq, Eq)]
pub enum TmuxAction {
    HasSession { session: String },
    AttachSession { session: String },
    NewSessionDetached { session: String, cwd: String, name: String },
    NewWindow { target: Option<String>, cwd: String, name: String },
    SplitWindow { target: Option<String>, cwd: String },
    SelectLayoutTiled { target: Option<String> },
}

/// The contents of a [`TmuxAction`].
pub enum ActionView {
    HasSession { session: Seq<char> },
    AttachSession { session: Seq<char> },
    NewSessionDetached { session: Seq<char>, cwd: Seq<char>, name: Seq<char> },
    NewWindow { target: Option<Seq<char>>, cwd: Seq<char>, name: Seq<char> },
    SplitWindow { target: Option<Seq<char>>, cwd: Seq<char> },
    SelectLayoutTiled { target: Option<Seq<char>> },
}

/// The contents of an optional string.
pub open spec fn opt_view(o: Option<String>) -> Option<Seq<char>> {
    match o {
        Some(s) => Some(s@),
        None => None,
    }
}

impl View for TmuxAction {
    type V = ActionView;

    open spec fn view(&self) -> ActionView {
        match self {
            TmuxAction::HasSession { session } => ActionView::HasSession { session: session@ },
            TmuxAction::AttachSession { session } => ActionView::AttachSession { session: session@ },
            TmuxAction::NewSessionDetached { session, cwd, name } => ActionView::NewSessionDetached {
                session: session@,
                cwd: cwd@,
                name: name@,
            },
            TmuxAction::NewWindow { target, cwd, name } => ActionView::NewWindow {
                target: opt_view(*target),
                cwd: cwd@,
                name: name@,
            },
            TmuxAction::SplitWindow { target, cwd } => ActionView::SplitWindow {
                target: opt_view(*target),
                cwd: cwd@,
            },
            TmuxAction::SelectLayoutTiled { target } => ActionView::SelectLayoutTiled {
                target: opt_view(*target),
            },
        }
    }
}

/// The contents of a list of actions.
pub open spec fn action_views(v: Seq<TmuxAction>) -> Seq<ActionView> {
    v.map_values(|a: TmuxAction| a@)
}

/// The tmux session that holds the bookmark session `session_name`.
pub open spec fn tmux_session_of(session_name: Seq<char>) -> Seq<char> {
    "bmersive-"@ + session_name
}

/// A new window in the current session at bookmark `b`, named after it.
pub open spec fn window_at(b: Seq<char>) -> ActionView {
    ActionView::NewWindow { target: None, cwd: b, name: basename_of(b) }
}

/// A new pane split off in the current window at bookmark `b`.
pub open spec fn pane_at(b: Seq<char>) -> ActionView {
    ActionView::SplitWindow { target: None, cwd: b }
}

/// A detached session `s` whose first window sits at bookmark `b`.
pub open spec fn new_session_at(s: Seq<char>, b: Seq<char>) -> ActionView {
    ActionView::NewSessionDetached { session: s, cwd: b, name: basename_of(b) }
}

/// Windows for every bookmark after the first.
pub open spec fn later_windows(bs: Seq<Seq<char>>) -> Seq<ActionView> {
    if bs.len() == 0 {
        Seq::empty()
    } else {
        Seq::new((bs.len() - 1) as nat, |i: int| window_at(bs[i + 1]))
    }
}

/// Panes for every bookmark after the first.
pub open spec fn later_panes(bs: Seq<Seq<char>>) -> Seq<ActionView> {
    if bs.len() == 0 {
        Seq::empty()
    } else {
        Seq::new((bs.len() - 1) as nat, |i: int| pane_at(bs[i + 1]))
    }
}

/// The actions of windows mode: inside tmux, one new window per bookmark;
/// outside, check for the session, create it with a window per bookmark,
/// and attach.
pub open spec fn windows_actions(
    session_name: Seq<char>,
    bs: Seq<Seq<char>>,
    inside_tmux: bool,
) -> Seq<ActionView> {
    if inside_tmux {
        Seq::new(bs.len(), |i: int| window_at(bs[i]))
    } else {
        let s = tmux_session_of(session_name);
        seq![ActionView::HasSession { session: s }] + (if bs.len() > 0 {
            seq![new_session_at(s, bs[0])] + later_windows(bs)
        } else {
            Seq::empty()
        }) + seq![ActionView::AttachSession { session: s }]
    }
}

/// The actions of panes mode: inside tmux, a new window at the first
/// bookmark, a pane per further bookmark, then the tiled layout; outside,
/// the same in a newly created session that is then attached.
pub open spec fn panes_actions(
    session_name: Seq<char>,
    bs: Seq<Seq<char>>,
    inside_tmux: bool,
) -> Seq<ActionView> {
    if inside_tmux {
        (if bs.len() > 0 {
            seq![window_at(bs[0])]
        } else {
            Seq::empty()
        }) + later_panes(bs) + seq![ActionView::SelectLayoutTiled { target: None }]
    } else if bs.len() > 0 {
        let s = tmux_session_of(session_name);
        seq![ActionView::HasSession { session: s }, new_session_at(s, bs[0])] + later_panes(bs)
            + seq![
            ActionView::SelectLayoutTiled { target: None },
            ActionView::AttachSession { session: s },
        ]
    } else {
        Seq::empty()
    }
}

/// Copies a string.
fn copy_string(s: &String) -> (r: String)
    ensures
        r@ == s@,
{
    String::from_str(s.as_str())
}

/// The tmux session name for the bookmark session `session_name`.
pub fn tmux_session_name(session_name: &str) -> (r: String)
    ensures
        r@ == tmux_session_of(session_name@),
{
    let mut r = String::from_str("bmersive-");
    r.append(session_name);
    r
}

fn new_window_action(b: &String) -> (r: TmuxAction)
    ensures
        r@ == window_at(b@),
{
    TmuxAction::NewWindow { target: None, cwd: copy_string(b), name: basename(b.as_str()) }
}

fn split_window_action(b: &String) -> (r: TmuxAction)
    ensures
        r@ == pane_at(b@),
{
    TmuxAction::SplitWindow { target: None, cwd: copy_string(b) }
}

/// Appends an action for every bookmark from the second on.
fn push_later(actions: &mut Vec<TmuxAction>, bookmarks: &Vec<String>, panes: bool)
    ensures
        action_views(final(actions)@) == action_views(old(actions)@) + if panes {
            later_panes(views(bookmarks@))
        } else {
            later_windows(views(bookmarks@))
        },
{
    let ghost start = action_views(actions@);
    let ghost bs = views(bookmarks@);
    let ghost tail = if panes {
        later_panes(bs)
    } else {
        later_windows(bs)
    };
    if bookmarks.len() == 0 {
        assert(action_views(actions@) =~= start + tail);
        return;
    }
    let mut i: usize = 1;
    assert(tail.take(0) =~= Seq::<ActionView>::empty());
    assert(action_views(actions@) =~= start + tail.take(0));
    while i < bookmarks.len()
        invariant
            1 <= i <= bookmarks.len(),
            bs == views(bookmarks@),
            tail == if panes {
                later_panes(bs)
            } else {
                later_windows(bs)
            },
            tail.len() == bookmarks.len() - 1,
            action_views(actions@) == start + tail.take(i - 1),
        decreases bookmarks.len() - i,
    {
        let ghost before = action_views(actions@);
        let a = if panes {
            split_window_action(&bookmarks[i])
        } else {
            new_window_action(&bookmarks[i])
        };
        assert(bs[i as int] == bookmarks@[i as int]@);
        assert(a@ == tail[i - 1]);
        actions.push(a);
        assert(action_views(actions@) =~= before.push(tail[i - 1]));
        assert(tail.take(i as int) =~= tail.take(i - 1).push(tail[i - 1]));
        i = i + 1;
    }
    assert(tail.take(i - 1) =~= tail);
}

/// The actions that materialize `bookmarks` as windows.
pub fn tmux_windows_actions(session_name: &str, bookmarks: &Vec<String>, inside_tmux: bool) -> (r:
    Vec<TmuxAction>)
    ensures
        action_views(r@) == windows_actions(session_name@, views(bookmarks@), inside_tmux),
{
    let ghost bs = views(bookmarks@);
    if inside_tmux {
        let mut actions: Vec<TmuxAction> = Vec::new();
        let mut i: usize = 0;
        while i < bookmarks.len()
            invariant
                i <= bookmarks.len(),
                bs == views(bookmarks@),
                action_views(actions@) == Seq::new(bs.len(), |k: int| window_at(bs[k])).take(
                    i as int,
                ),
            decreases bookmarks.len() - i,
        {
            let ghost before = action_views(actions@);
            let a = new_window_action(&bookmarks[i]);
            assert(bs[i as int] == bookmarks@[i as int]@);
            actions.push(a);
            assert(action_views(actions@) =~= before.push(window_at(bs[i as int])));
            i = i + 1;
            assert(action_views(actions@) =~= Seq::new(bs.len(), |k: int| window_at(bs[k])).take(
                i as int,
            ));
        }
        assert(Seq::new(bs.len(), |k: int| window_at(bs[k])).take(i as int) =~= Seq::new(
            bs.len(),
            |k: int| window_at(bs[k]),
        ));
        return actions;
    }
    let tmux_session = tmux_session_name(session_name);
    let ghost s = tmux_session@;
    let mut actions: Vec<TmuxAction> = Vec::new();
    actions.push(TmuxAction::HasSession { session: copy_string(&tmux_session) });
    assert(action_views(actions@) =~= seq![ActionView::HasSession { session: s }]);
    if bookmarks.len() > 0 {
        let ghost before = action_views(actions@);
        let first = &bookmarks[0];
        assert(bs[0] == first@);
        actions.push(
            TmuxAction::NewSessionDetached {
                session: copy_string(&tmux_session),
                cwd: copy_string(first),
                name: basename(first.as_str()),
            },
        );
        assert(action_views(actions@) =~= before.push(new_session_at(s, bs[0])));
        push_later(&mut actions, bookmarks, false);
    }
    let ghost before = action_views(actions@);
    actions.push(TmuxAction::AttachSession { session: tmux_session });
    assert(action_views(actions@) =~= before.push(ActionView::AttachSession { session: s }));
    assert(action_views(actions@) =~= windows_actions(session_name@, bs, inside_tmux));
    actions
}

/// The actions that materialize `bookmarks` as tiled panes.
pub fn tmux_panes_actions(session_name: &str, bookmarks: &Vec<String>, inside_tmux: bool) -> (r:
    Vec<TmuxAction>)
    ensures
        action_views(r@) == panes_actions(session_name@, views(bookmarks@), inside_tmux),
{
    let ghost bs = views(bookmarks@);
    let mut actions: Vec<TmuxAction> = Vec::new();
    if inside_tmux {
        if bookmarks.len() > 0 {
            assert(bs[0] == bookmarks@[0]@);
            actions.push(new_window_action(&bookmarks[0]));
            assert(action_views(actions@) =~= seq![window_at(bs[0])]);
        } else {
            assert(action_views(actions@) =~= Seq::<ActionView>::empty());
        }
        push_later(&mut actions, bookmarks, true);
        let ghost before = action_views(actions@);
        actions.push(TmuxAction::SelectLayoutTiled { target: None });
        assert(action_views(actions@) =~= before.push(
            ActionView::SelectLayoutTiled { target: None },
        ));
        assert(action_views(actions@) =~= panes_actions(session_name@, bs, inside_tmux));
        return actions;
    }
    if bookmarks.len() > 0 {
        let first = &bookmarks[0];
        assert(bs[0] == first@);
        let tmux_session = tmux_session_name(session_name);
        let ghost s = tmux_session@;
        actions.push(TmuxAction::HasSession { session: copy_string(&tmux_session) });
        actions.push(
            TmuxAction::NewSessionDetached {
                session: copy_string(&tmux_session),
                cwd: copy_string(first),
                name: basename(first.as_str()),
            },
        );
        assert(action_views(actions@) =~= seq![
            ActionView::HasSession { session: s },
            new_session_at(s, bs[0]),
        ]);
        push_later(&mut actions, bookmarks, true);
        let ghost before = action_views(actions@);
        actions.push(TmuxAction::SelectLayoutTiled { target: None });
        actions.push(TmuxAction::AttachSession { session: tmux_session });
        assert(action_views(actions@) =~= before + seq![
            ActionView::SelectLayoutTiled { target: None },
            ActionView::AttachSession { session: s },
        ]);
        assert(action_views(actions@) =~= panes_actions(session_name@, bs, inside_tmux));
    } else {
        assert(action_views(actions@) =~= panes_actions(session_name@, bs, inside_tmux));
    }
    actions
}

/// Owned copies of `values`, in order.
pub fn strings<const N: usize>(values: [&str; N]) -> (r: Vec<String>)
    ensures
        views(r@) == values@.map_values(|v: &str| v@),
{
    let mut r: Vec<String> = Vec::new();
    let mut i: usize = 0;
    while i < N
        invariant
            i <= N,
            N == values@.len(),
            views(r@) == values@.map_values(|v: &str| v@).take(i as int),
        decreases N - i,
    {
        let ghost before = r@;
        r.push(String::from_str(values[i]));
        assert(views(r@) =~= views(before).push(values@[i as int]@));
        i = i + 1;
        assert(views(r@) =~= values@.map_values(|v: &str| v@).take(i as int));
    }
    assert(values@.map_values(|v: &str| v@).take(N as int) =~= values@.map_values(|v: &str| v@));
    r
}

/// The command line that creates detached session `s` with its first
/// window at bookmark `b`.
pub open spec fn new_session_args(s: Seq<char>, b: Seq<char>) -> Seq<Seq<char>> {
    seq!["new-session"@, "-d"@, "-s"@, s, "-c"@, b, "-n"@, basename_of(b)]
}

/// The command line that attaches to session `s`.
pub open spec fn attach_args(s: Seq<char>) -> Seq<Seq<char>> {
    seq!["attach-session"@, "-t"@, s]
}

/// The chained command for one further bookmark: a detached window in
/// windows mode, a split pane in panes mode.
pub open spec fn later_args_for(b: Seq<char>, panes: bool) -> Seq<Seq<char>> {
    if panes {
        seq![";"@, "split-window"@, "-c"@, b]
    } else {
        seq![";"@, "new-window"@, "-d"@, "-c"@, b, "-n"@, basename_of(b)]
    }
}

/// The chained commands for the bookmarks in `rest`, in order.
pub open spec fn later_args(rest: Seq<Seq<char>>, panes: bool) -> Seq<Seq<char>>
    decreases rest.len(),
{
    if rest.len() == 0 {
        Seq::empty()
    } else {
        later_args(rest.drop_last(), panes) + later_args_for(rest.last(), panes)
    }
}

/// One tmux invocation that builds the windows-mode session and attaches.
pub open spec fn outside_windows_args(session_name: Seq<char>, bs: Seq<Seq<char>>) -> Seq<Seq<char>> {
    let s = tmux_session_of(session_name);
    if bs.len() == 0 {
        Seq::empty()
    } else {
        new_session_args(s, bs[0]) + later_args(bs.drop_first(), false) + seq![";"@] + attach_args(s)
    }
}

/// One tmux invocation that builds the panes-mode session, tiles it and
/// attaches.
pub open spec fn outside_panes_args(session_name: Seq<char>, bs: Seq<Seq<char>>) -> Seq<Seq<char>> {
    let s = tmux_session_of(session_name);
    if bs.len() == 0 {
        Seq::empty()
    } else {
        new_session_args(s, bs[0]) + later_args(bs.drop_first(), true) + seq![
            ";"@,
            "select-layout"@,
            "tiled"@,
            ";"@,
        ] + attach_args(s)
    }
}

/// Appends the chained commands for every bookmark from the second on.
fn push_later_args(args: &mut Vec<String>, bookmarks: &Vec<String>, panes: bool)
    requires
        bookmarks.len() > 0,
    ensures
        views(final(args)@) == views(old(args)@) + later_args(views(bookmarks@).drop_first(), panes),
{
    let ghost start = views(args@);
    let ghost bs = views(bookmarks@);
    let mut i: usize = 1;
    assert(bs.subrange(1, 1) =~= Seq::<Seq<char>>::empty());
    assert(views(args@) =~= start + later_args(bs.subrange(1, 1), panes));
    while i < bookmarks.len()
        invariant
            1 <= i <= bookmarks.len(),
            bs == views(bookmarks@),
            views(args@) == start + later_args(bs.subrange(1, i as int), panes),
        decreases bookmarks.len() - i,
    {
        let ghost before = views(args@);
        let b = bookmarks[i].as_str();
        assert(bs[i as int] == b@);
        let mut more = if panes {
            strings([";", "split-window", "-c", b])
        } else {
            let name = basename(b);
            strings([";", "new-window", "-d", "-c", b, "-n", name.as_str()])
        };
        let ghost mv = views(more@);
        assert(mv =~= later_args_for(b@, panes));
        args.append(&mut more);
        assert(views(args@) =~= before + mv);
        assert(bs.subrange(1, i + 1).drop_last() =~= bs.subrange(1, i as int));
        assert(bs.subrange(1, i + 1).last() == bs[i as int]);
        i = i + 1;
    }
    assert(bs.subrange(1, i as int) =~= bs.drop_first());
}

/// The single tmux command line that creates the windows-mode session for
/// `bookmarks` and attaches to it; empty when there are no bookmarks.
pub fn tmux_outside_windows_args(session_name: &str, bookmarks: &Vec<String>) -> (r: Vec<String>)
    ensures
        views(r@) == outside_windows_args(session_name@, views(bookmarks@)),
{
    let mut args: Vec<String> = Vec::new();
    let tmux_session = tmux_session_name(session_name);
    let ghost bs = views(bookmarks@);
    if bookmarks.len() > 0 {
        let first = bookmarks[0].as_str();
        assert(bs[0] == first@);
        let name = basename(first);
        args = strings(["new-session", "-d", "-s", tmux_session.as_str(), "-c", first, "-n", name.as_str()]);
        assert(views(args@) =~= new_session_args(tmux_session@, bs[0]));
        push_later_args(&mut args, bookmarks, false);
        let ghost before = views(args@);
        let mut tail = strings([";", "attach-session", "-t", tmux_session.as_str()]);
        assert(views(tail@) =~= seq![";"@] + attach_args(tmux_session@));
        let ghost tv = views(tail@);
        args.append(&mut tail);
        assert(views(args@) =~= before + tv);
        assert(views(args@) =~= before + seq![";"@] + attach_args(tmux_session@));
    } else {
        assert(views(args@) =~= Seq::<Seq<char>>::empty());
    }
    args
}

/// The single tmux command line that creates the panes-mode session for
/// `bookmarks`, tiles it and attaches; empty when there are no bookmarks.
pub fn tmux_outside_panes_args(session_name: &str, bookmarks: &Vec<String>) -> (r: Vec<String>)
    ensures
        views(r@) == outside_panes_args(session_name@, views(bookmarks@)),
{
    let mut args: Vec<String> = Vec::new();
    let tmux_session = tmux_session_name(session_name);
    let ghost bs = views(bookmarks@);
    if bookmarks.len() > 0 {
        let first = bookmarks[0].as_str();
        assert(bs[0] == first@);
        let name = basename(first);
        args = strings(["new-session", "-d", "-s", tmux_session.as_str(), "-c", first, "-n", name.as_str()]);
        assert(views(args@) =~= new_session_args(tmux_session@, bs[0]));
        push_later_args(&mut args, bookmarks, true);
        let ghost before = views(args@);
        let mut tail = strings([";", "select-layout", "tiled", ";", "attach-session", "-t", tmux_session.as_str()]);
        assert(views(tail@) =~= seq![";"@, "select-layout"@, "tiled"@, ";"@] + attach_args(
            tmux_session@,
        ));
        let ghost tv = views(tail@);
        args.append(&mut tail);
        assert(views(args@) =~= before + tv);
        assert(views(args@) =~= before + seq![";"@, "select-layout"@, "tiled"@, ";"@]
            + attach_args(tmux_session@));
    } else {
        assert(views(args@) =~= Seq::<Seq<char>>::empty());
    }
    args
}

/// What to run outside tmux in windows mode: attach where the session
/// already exists, else create it from the bookmarks and attach.
pub fn tmux_outside_windows(session_name: &str, bookmarks: &Vec<String>, session_exists: bool) -> (r:
    Vec<String>)
    ensures
        views(r@) == if session_exists {
            attach_args(tmux_session_of(session_name@))
        } else {
            outside_windows_args(session_name@, views(bookmarks@))
        },
{
    if session_exists {
        let tmux_session = tmux_session_name(session_name);
        let r = strings(["attach-session", "-t", tmux_session.as_str()]);
        assert(views(r@) =~= attach_args(tmux_session@));
        r
    } else {
        tmux_outside_windows_args(session_name, bookmarks)
    }
}

/// What to run outside tmux in panes mode: attach where the session
/// already exists, else create it from the bookmarks, tile and attach.
pub fn tmux_outside_panes(session_name: &str, bookmarks: &Vec<String>, session_exists: bool) -> (r:
    Vec<String>)
    ensures
        views(r@) == if session_exists {
            attach_args(tmux_session_of(session_name@))
        } else {
            outside_panes_args(session_name@, views(bookmarks@))
        },
{
    if session_exists {
        let tmux_session = tmux_session_name(session_name);
        let r = strings(["attach-session", "-t", tmux_session.as_str()]);
        assert(views(r@) =~= attach_args(tmux_session@));
        r
    } else {
        tmux_outside_panes_args(session_name, bookmarks)
    }
}

/// What to do for one action while running a list of actions.
#[derive(Debug)]
pub enum TmuxCommand {
    /// Run tmux with these arguments, quietly, and remember whether the
    /// session exists by whether it succeeded.
    Probe { args: Vec<String> },
    /// Run tmux with these arguments; a failure stops the run.
    Run { args: Vec<String> },
    /// Run nothing.
    Skip,
}

/// The contents of a [`TmuxCommand`].
pub enum CommandView {
    Probe(Seq<Seq<char>>),
    Run(Seq<Seq<char>>),
    Skip,
}

impl View for TmuxCommand {
    type V = CommandView;

    open spec fn view(&self) -> CommandView {
        match self {
            TmuxCommand::Probe { args } => CommandView::Probe(views(args@)),
            TmuxCommand::Run { args } => CommandView::Run(views(args@)),
            TmuxCommand::Skip => CommandView::Skip,
        }
    }
}

/// The tmux arguments that carry out an action.
pub open spec fn action_args(a: ActionView) -> Seq<Seq<char>> {
    match a {
        ActionView::HasSession { session } => seq!["has-session"@, "-t"@, session],
        ActionView::AttachSession { session } => attach_args(session),
        ActionView::NewSessionDetached { session, cwd, name } => seq![
            "new-session"@,
            "-d"@,
            "-s"@,
            session,
            "-c"@,
            cwd,
            "-n"@,
            name,
        ],
        ActionView::NewWindow { target, cwd, name } => match target {
            Some(t) => seq!["new-window"@, "-t"@, t, "-c"@, cwd, "-n"@, name],
            None => seq!["new-window"@, "-c"@, cwd, "-n"@, name],
        },
        ActionView::SplitWindow { target, cwd } => match target {
            Some(t) => seq!["split-window"@, "-t"@, t, "-c"@, cwd],
            None => seq!["split-window"@, "-c"@, cwd],
        },
        ActionView::SelectLayoutTiled { target } => match target {
            Some(t) => seq!["select-layout"@, "-t"@, t, "tiled"@],
            None => seq!["select-layout"@, "tiled"@],
        },
    }
}

/// The step for action `a`: the session check is always probed and the
/// attach always run; every other action is skipped once the session is
/// known to exist.
pub open spec fn step_of(session_exists: bool, a: ActionView) -> CommandView {
    match a {
        ActionView::HasSession { .. } => CommandView::Probe(action_args(a)),
        ActionView::AttachSession { .. } => CommandView::Run(action_args(a)),
        _ => if session_exists {
            CommandView::Skip
        } else {
            CommandView::Run(action_args(a))
        },
    }
}

/// The step to take for `action`, given whether the tmux session has been
/// found to exist.
pub fn tmux_step(session_exists: bool, action: &TmuxAction) -> (r: TmuxCommand)
    ensures
        r@ == step_of(session_exists, action@),
{
    match action {
        TmuxAction::HasSession { session } => {
            let args = strings(["has-session", "-t", session.as_str()]);
            assert(views(args@) =~= action_args(action@));
            TmuxCommand::Probe { args }
        },
        TmuxAction::AttachSession { session } => {
            let args = strings(["attach-session", "-t", session.as_str()]);
            assert(views(args@) =~= action_args(action@));
            TmuxCommand::Run { args }
        },
        TmuxAction::NewSessionDetached { session, cwd, name } => {
            if session_exists {
                return TmuxCommand::Skip;
            }
            let args = strings(
                ["new-session", "-d", "-s", session.as_str(), "-c", cwd.as_str(), "-n", name.as_str()],
            );
            assert(views(args@) =~= action_args(action@));
            TmuxCommand::Run { args }
        },
        TmuxAction::NewWindow { target, cwd, name } => {
            if session_exists {
                return TmuxCommand::Skip;
            }
            let args = match target {
                Some(t) => strings(
                    ["new-window", "-t", t.as_str(), "-c", cwd.as_str(), "-n", name.as_str()],
                ),
                None => strings(["new-window", "-c", cwd.as_str(), "-n", name.as_str()]),
            };
            assert(views(args@) =~= action_args(action@));
            TmuxCommand::Run { args }
        },
        TmuxAction::SplitWindow { target, cwd } => {
            if session_exists {
                return TmuxCommand::Skip;
            }
            let args = match target {
                Some(t) => strings(["split-window", "-t", t.as_str(), "-c", cwd.as_str()]),
                None => strings(["split-window", "-c", cwd.as_str()]),
            };
            assert(views(args@) =~= action_args(action@));
            TmuxCommand::Run { args }
        },
        TmuxAction::SelectLayoutTiled { target } => {
            if session_exists {
                return TmuxCommand::Skip;
            }
            let args = match target {
                Some(t) => strings(["select-layout", "-t", t.as_str(), "tiled"]),
                None => strings(["select-layout", "tiled"]),
            };
            assert(views(args@) =~= action_args(action@));
            TmuxCommand::Run { args }
        },
    }
}

/// What `tmux` does for the appointed session.
#[derive(Debug)]
pub enum TmuxPlan {
    /// The session has no bookmarks; nothing is built.
    NoBookmarks,
    /// Inside tmux: run these actions in the current session.
    Actions { actions: Vec<TmuxAction> },
    /// Outside tmux, windows mode: attach to or create the session.
    OutsideWindows,
    /// Outside tmux, panes mode: attach to or create the session.
    OutsidePanes,
}

/// The plan for `tmux` in `mode` (panes when not given) for the appointed
/// session `session_name`.
pub fn plan_tmux(
    mode_arg: Option<TmuxMode>,
    inside_tmux: bool,
    sessions: &SessionsState,
    session_name: &str,
) -> (r: Result<TmuxPlan, CliError>)
    requires
        sessions.wf(),
    ensures
        !sessions@.dom().contains(session_name@) ==> (r matches Err(e) && e.message@
            == missing_selected_message(session_name@)),
        sessions@.dom().contains(session_name@) ==> ({
            let bs = sessions@[session_name@];
            let windows = mode_arg == Some(TmuxMode::Windows);
            if bs.len() == 0 {
                r matches Ok(TmuxPlan::NoBookmarks)
            } else if inside_tmux {
                r matches Ok(TmuxPlan::Actions { actions }) && action_views(actions@) == if windows {
                    windows_actions(session_name@, bs, true)
                } else {
                    panes_actions(session_name@, bs, true)
                }
            } else if windows {
                r matches Ok(TmuxPlan::OutsideWindows)
            } else {
                r matches Ok(TmuxPlan::OutsidePanes)
            }
        }),
{
    let mode = match mode_arg {
        Some(m) => m,
        None => TmuxMode::Panes,
    };
    let state = match crate::commands::appointed_bookmarks(sessions, session_name) {
        Ok(b) => b,
        Err(e) => return Err(e),
    };
    if state.bookmarks.len() == 0 {
        return Ok(TmuxPlan::NoBookmarks);
    }
    match (mode, inside_tmux) {
        (TmuxMode::Windows, true) => Ok(
            TmuxPlan::Actions { actions: tmux_windows_actions(session_name, &state.bookmarks, true) },
        ),
        (TmuxMode::Panes, true) => Ok(
            TmuxPlan::Actions { actions: tmux_panes_actions(session_name, &state.bookmarks, true) },
        ),
        (TmuxMode::Windows, false) => Ok(TmuxPlan::OutsideWindows),
        (TmuxMode::Panes, false) => Ok(TmuxPlan::OutsidePanes),
    }
}

} // verus!
