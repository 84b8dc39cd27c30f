//! Properties that hold across calls: of adding and removing bookmarks,
//! of the appointment file, of bookmark spellings and of tmux runs.
use vstd::prelude::*;

use crate::commands::{
    add_verdict, after_add, after_remove, remove_verdict, session_name_char, target_path,
    valid_session_name,
};
use crate::commands::imported_sessions;
use crate::paths::{
    basename_of, is_absolute, join_path, lemma_normal_form_absolute, lemma_normal_form_idempotent,
};
use crate::state::SessionsState;
use crate::text::{law_prefix_comes_first, seq_lt};
use crate::tmux::{later_args, later_args_for, new_session_args, outside_panes_args, outside_windows_args};
use crate::text::{is_space, trim, trim_end, trim_start};
use crate::tmux::{
    action_args, attach_args, new_session_at, panes_actions, pane_at, step_of, tmux_session_of,
    window_at, windows_actions, ActionView, CommandView,
};

verus! {

/// Adding never takes a session past the limit: a list within `max`
/// stays within `max`.
pub proof fn law_add_keeps_limit(
    m: Map<Seq<char>, Seq<Seq<char>>>,
    name: Seq<char>,
    p: Seq<char>,
    max: nat,
)
    requires
        m.dom().contains(name),
        m[name].len() <= max,
    ensures
        after_add(m, name, p, max).dom().contains(name),
        after_add(m, name, p, max)[name].len() <= max,
{
}

/// Adding the same path twice is adding it once; the second add finds it
/// already bookmarked (or still finds the list full or the session missing).
pub proof fn law_add_twice_is_add_once(
    m: Map<Seq<char>, Seq<Seq<char>>>,
    name: Seq<char>,
    p: Seq<char>,
    max: nat,
)
    ensures
        after_add(after_add(m, name, p, max), name, p, max) == after_add(m, name, p, max),
        add_verdict(m, name, p, max) is Added ==> add_verdict(after_add(m, name, p, max), name, p, max)
            is AlreadyBookmarked,
{
    if add_verdict(m, name, p, max) is Added {
        let m2 = after_add(m, name, p, max);
        assert(m2[name] == m[name].push(p));
        assert(m2[name][m[name].len() as int] == p);
        assert(m2[name].contains(p));
    }
}

/// An add touches only its own session, and appends at the end, so the
/// earlier bookmarks keep their indexes.
pub proof fn law_add_appends_to_its_session(
    m: Map<Seq<char>, Seq<Seq<char>>>,
    name: Seq<char>,
    p: Seq<char>,
    max: nat,
    other: Seq<char>,
)
    requires
        other != name,
    ensures
        after_add(m, name, p, max).dom() == m.dom(),
        m.dom().contains(other) ==> after_add(m, name, p, max)[other] == m[other],
        add_verdict(m, name, p, max) is Added ==> ({
            let b = after_add(m, name, p, max)[name];
            &&& b.len() == m[name].len() + 1
            &&& b[m[name].len() as int] == p
            &&& forall|i: int| 0 <= i < m[name].len() ==> #[trigger] b[i] == m[name][i]
        }),
{
    if add_verdict(m, name, p, max) is Added {
        assert(m.insert(name, m[name].push(p)).dom() =~= m.dom());
    }
}

/// Removing the bookmark that an add just appended restores the sessions.
pub proof fn law_remove_undoes_add(
    m: Map<Seq<char>, Seq<Seq<char>>>,
    name: Seq<char>,
    p: Seq<char>,
    max: nat,
)
    requires
        add_verdict(m, name, p, max) is Added,
    ensures
        remove_verdict(after_add(m, name, p, max), name, m[name].len()) is Removed,
        after_remove(after_add(m, name, p, max), name, m[name].len()) == m,
{
    let b = m[name];
    let m2 = after_add(m, name, p, max);
    assert(m2[name] == b.push(p));
    assert(b.push(p).remove(b.len() as int) =~= b);
    assert(m2.insert(name, b) =~= m);
}

/// Removing keeps the other bookmarks of the session in their order:
/// those before the index stay put, those after move up by one.
pub proof fn law_remove_keeps_order(m: Map<Seq<char>, Seq<Seq<char>>>, name: Seq<char>, index: nat)
    requires
        remove_verdict(m, name, index) is Removed,
    ensures
        ({
            let old_b = m[name];
            let b = after_remove(m, name, index)[name];
            &&& b.len() + 1 == old_b.len()
            &&& forall|i: int| 0 <= i < index ==> #[trigger] b[i] == old_b[i]
            &&& forall|i: int| index <= i < b.len() ==> #[trigger] b[i] == old_b[i + 1]
        }),
{
}

/// A stored bookmark, given again as a target, names itself: re-adding a
/// listed path finds it already bookmarked.
pub proof fn law_bookmark_spelling_is_stable(target: Seq<char>, cwd: Seq<char>, cwd2: Seq<char>)
    requires
        is_absolute(target) || is_absolute(cwd),
    ensures
        target_path(target_path(target, cwd), cwd2) == target_path(target, cwd),
{
    let s = if is_absolute(target) {
        target
    } else {
        join_path(cwd, target)
    };
    if !is_absolute(target) {
        assert(join_path(cwd, target)[0] == cwd[0]);
    }
    assert(is_absolute(s));
    lemma_normal_form_absolute(s);
    lemma_normal_form_idempotent(s);
}

/// What `session use` writes to the appointment file, the appointment
/// read back gives: `name` followed by a newline trims to `name`.
pub proof fn law_appointment_roundtrip(name: Seq<char>)
    requires
        valid_session_name(name),
    ensures
        trim(name.push('\n')) == name,
        trim(name.push('\n')).len() > 0,
{
    let f = name.push('\n');
    assert(session_name_char(name[0]));
    assert(!is_space(f[0]));
    assert(trim_start(f) == f);
    assert(is_space(f.last()));
    assert(f.drop_last() =~= name);
    assert(session_name_char(name[name.len() - 1]));
    assert(trim_end(f) == trim_end(name));
    assert(trim_end(name) == name);
}

/// The working directory of an action that opens a window or pane.
pub open spec fn cwd_of(a: ActionView) -> Option<Seq<char>> {
    match a {
        ActionView::NewSessionDetached { cwd, .. } => Some(cwd),
        ActionView::NewWindow { cwd, .. } => Some(cwd),
        ActionView::SplitWindow { cwd, .. } => Some(cwd),
        _ => None,
    }
}

/// Every bookmark gets exactly one window or pane, in bookmark order, and
/// nothing else opens one: in both modes, inside and outside tmux.
pub proof fn law_one_place_per_bookmark(
    session_name: Seq<char>,
    bs: Seq<Seq<char>>,
    panes: bool,
    inside_tmux: bool,
)
    requires
        bs.len() > 0,
    ensures
        ({
            let acts = if panes {
                panes_actions(session_name, bs, inside_tmux)
            } else {
                windows_actions(session_name, bs, inside_tmux)
            };
            let off: int = if inside_tmux {
                0
            } else {
                1
            };
            &&& forall|i: int| 0 <= i < bs.len() ==> cwd_of(#[trigger] acts[i + off]) == Some(bs[i])
            &&& forall|j: int|
                0 <= j < acts.len() && !(off <= j < off + bs.len()) ==> cwd_of(#[trigger] acts[j])
                    is None
        }),
{
    let acts = if panes {
        panes_actions(session_name, bs, inside_tmux)
    } else {
        windows_actions(session_name, bs, inside_tmux)
    };
    let off: int = if inside_tmux {
        0
    } else {
        1
    };
    let s = tmux_session_of(session_name);
    let n = bs.len();
    let tail_w = Seq::new((n - 1) as nat, |i: int| window_at(bs[i + 1]));
    let tail_p = Seq::new((n - 1) as nat, |i: int| pane_at(bs[i + 1]));
    if panes {
        if inside_tmux {
            assert(acts =~= seq![window_at(bs[0])] + tail_p + seq![
                ActionView::SelectLayoutTiled { target: None },
            ]);
        } else {
            assert(acts =~= seq![ActionView::HasSession { session: s }, new_session_at(s, bs[0])]
                + tail_p + seq![
                ActionView::SelectLayoutTiled { target: None },
                ActionView::AttachSession { session: s },
            ]);
        }
    } else {
        if inside_tmux {
            assert(acts =~= Seq::new(n, |i: int| window_at(bs[i])));
        } else {
            assert(acts =~= seq![ActionView::HasSession { session: s }] + (seq![
                new_session_at(s, bs[0]),
            ] + tail_w) + seq![ActionView::AttachSession { session: s }]);
        }
    }
    assert forall|i: int| 0 <= i < bs.len() implies cwd_of(#[trigger] acts[i + off]) == Some(
        bs[i],
    ) by {
        if i > 0 {
            assert(tail_w[i - 1] == window_at(bs[i]));
            assert(tail_p[i - 1] == pane_at(bs[i]));
        }
    }
}

/// Outside tmux, when the session is found to exist, a run of the plan
/// only attaches to it: the session check is probed, every action that
/// would open a window, pane or layout is skipped, and the last action
/// attaches. When it is not found, every action after the check runs.
pub proof fn law_existing_session_only_attaches(
    session_name: Seq<char>,
    bs: Seq<Seq<char>>,
    panes: bool,
)
    requires
        bs.len() > 0,
    ensures
        ({
            let acts = if panes {
                panes_actions(session_name, bs, false)
            } else {
                windows_actions(session_name, bs, false)
            };
            let s = tmux_session_of(session_name);
            &&& acts[0] == ActionView::HasSession { session: s }
            &&& step_of(false, acts[0]) == CommandView::Probe(seq!["has-session"@, "-t"@, s])
            &&& forall|i: int| 1 <= i < acts.len() - 1 ==> #[trigger] step_of(true, acts[i])
                == CommandView::Skip
            &&& step_of(true, acts[acts.len() - 1]) == CommandView::Run(attach_args(s))
            &&& forall|i: int| 1 <= i < acts.len() ==> #[trigger] step_of(false, acts[i])
                == CommandView::Run(action_args(acts[i]))
        }),
{
    let acts = if panes {
        panes_actions(session_name, bs, false)
    } else {
        windows_actions(session_name, bs, false)
    };
    let s = tmux_session_of(session_name);
    let n = bs.len();
    let tail_w = Seq::new((n - 1) as nat, |i: int| window_at(bs[i + 1]));
    let tail_p = Seq::new((n - 1) as nat, |i: int| pane_at(bs[i + 1]));
    if panes {
        assert(acts =~= seq![ActionView::HasSession { session: s }, new_session_at(s, bs[0])]
            + tail_p + seq![
            ActionView::SelectLayoutTiled { target: None },
            ActionView::AttachSession { session: s },
        ]);
        assert forall|i: int| 1 <= i < acts.len() - 1 implies #[trigger] step_of(true, acts[i])
            == CommandView::Skip by {
            if 2 <= i < n + 1 {
                assert(acts[i] == tail_p[i - 2]);
            }
        }
        assert forall|i: int| 1 <= i < acts.len() implies #[trigger] step_of(false, acts[i])
            == CommandView::Run(action_args(acts[i])) by {
            if 2 <= i < n + 1 {
                assert(acts[i] == tail_p[i - 2]);
            }
        }
    } else {
        assert(acts =~= seq![ActionView::HasSession { session: s }, new_session_at(s, bs[0])]
            + tail_w + seq![ActionView::AttachSession { session: s }]);
        assert forall|i: int| 1 <= i < acts.len() - 1 implies #[trigger] step_of(true, acts[i])
            == CommandView::Skip by {
            if 2 <= i < n + 1 {
                assert(acts[i] == tail_w[i - 2]);
            }
        }
        assert forall|i: int| 1 <= i < acts.len() implies #[trigger] step_of(false, acts[i])
            == CommandView::Run(action_args(acts[i])) by {
            if 2 <= i < n + 1 {
                assert(acts[i] == tail_w[i - 2]);
            }
        }
    }
}

/// A session name is accepted exactly when it is not empty and every
/// character is a lowercase ASCII letter, an ASCII digit or `-`, whatever
/// its length.
pub proof fn law_session_name_rule(name: Seq<char>)
    ensures
        valid_session_name(name) <==> (name.len() > 0 && forall|i: int|
            0 <= i < name.len() ==> ('a' <= #[trigger] name[i] && name[i] <= 'z') || ('0' <= name[i]
                && name[i] <= '9') || name[i] == '-'),
{
}

/// Importing the single-session bookmark file keeps every bookmark, in
/// order, under the `default` session, and creates nothing else; an empty
/// file creates nothing.
pub proof fn law_import_keeps_every_bookmark(legacy: Seq<Seq<char>>)
    ensures
        legacy.len() > 0 ==> imported_sessions(legacy).dom() == set!["default"@]
            && imported_sessions(legacy)["default"@] == legacy,
        legacy.len() == 0 ==> imported_sessions(legacy).dom() == Set::<Seq<char>>::empty(),
{
    if legacy.len() > 0 {
        assert(imported_sessions(legacy).dom() =~= set!["default"@]);
    } else {
        assert(imported_sessions(legacy).dom() =~= Set::<Seq<char>>::empty());
    }
}

/// In session listings a name comes before every longer name that extends
/// it (`web` before `web-app`), as in string order.
pub proof fn law_listing_puts_prefix_first(state: SessionsState, i: int, j: int, t: Seq<char>)
    requires
        state.wf(),
        0 <= i < state.names().len(),
        0 <= j < state.names().len(),
        t.len() > 0,
        state.names()[j] == state.names()[i] + t,
    ensures
        i < j,
{
    state.lemma_names();
    law_prefix_comes_first(state.names()[i], t);
    if j < i {
        assert(seq_lt(state.names()[j], state.names()[i]));
    } else if i == j {
        assert(state.names()[i].len() == state.names()[j].len());
    }
}

/// The chained windows command opens exactly one window per bookmark, in
/// order: the new session at the first bookmark, then a detached window at
/// each further one, each named after its bookmark, then the attach.
pub proof fn law_outside_windows_one_window_per_bookmark(n: Seq<char>, bs: Seq<Seq<char>>)
    requires
        bs.len() > 0,
    ensures
        ({
            let a = outside_windows_args(n, bs);
            let s = tmux_session_of(n);
            &&& a.len() == 12 + 7 * (bs.len() - 1)
            &&& a.subrange(0, 8) == seq!["new-session"@, "-d"@, "-s"@, s, "-c"@, bs[0], "-n"@, basename_of(bs[0])]
            &&& forall|k: int| 1 <= k < bs.len() ==> a.subrange(8 + 7 * (k - 1), 8 + 7 * k) == seq![
                ";"@,
                "new-window"@,
                "-d"@,
                "-c"@,
                #[trigger] bs[k],
                "-n"@,
                basename_of(bs[k]),
            ]
            &&& a.subrange(a.len() - 4, a.len() as int) == seq![";"@, "attach-session"@, "-t"@, s]
        }),
{
    let s = tmux_session_of(n);
    let rest = bs.drop_first();
    lemma_later_args_windows(rest);
    let head = new_session_args(s, bs[0]);
    let mid = later_args(rest, false);
    let tail = seq![";"@] + attach_args(s);
    let a = outside_windows_args(n, bs);
    assert(a == head + mid + tail);
    assert(a.subrange(0, 8) =~= head);
    assert forall|k: int| 1 <= k < bs.len() implies a.subrange(8 + 7 * (k - 1), 8 + 7 * k) == seq![
        ";"@,
        "new-window"@,
        "-d"@,
        "-c"@,
        #[trigger] bs[k],
        "-n"@,
        basename_of(bs[k]),
    ] by {
        assert(rest[k - 1] == bs[k]);
        assert(mid.subrange(7 * (k - 1), 7 * (k - 1) + 7) == later_args_for(rest[k - 1], false));
        assert(a.subrange(8 + 7 * (k - 1), 8 + 7 * k) =~= mid.subrange(7 * (k - 1), 7 * (k - 1) + 7));
    }
    assert(a.subrange(a.len() - 4, a.len() as int) =~= tail);
}

/// The chained panes command opens exactly one pane per bookmark, in
/// order: the new session at the first bookmark, then a split at each
/// further one, then the tiled layout and the attach.
pub proof fn law_outside_panes_one_pane_per_bookmark(n: Seq<char>, bs: Seq<Seq<char>>)
    requires
        bs.len() > 0,
    ensures
        ({
            let a = outside_panes_args(n, bs);
            let s = tmux_session_of(n);
            &&& a.len() == 15 + 4 * (bs.len() - 1)
            &&& a.subrange(0, 8) == seq!["new-session"@, "-d"@, "-s"@, s, "-c"@, bs[0], "-n"@, basename_of(bs[0])]
            &&& forall|k: int| 1 <= k < bs.len() ==> a.subrange(8 + 4 * (k - 1), 8 + 4 * k) == seq![
                ";"@,
                "split-window"@,
                "-c"@,
                #[trigger] bs[k],
            ]
            &&& a.subrange(a.len() - 7, a.len() as int) == seq![
                ";"@,
                "select-layout"@,
                "tiled"@,
                ";"@,
                "attach-session"@,
                "-t"@,
                s,
            ]
        }),
{
    let s = tmux_session_of(n);
    let rest = bs.drop_first();
    lemma_later_args_panes(rest);
    let head = new_session_args(s, bs[0]);
    let mid = later_args(rest, true);
    let tail = seq![";"@, "select-layout"@, "tiled"@, ";"@] + attach_args(s);
    let a = outside_panes_args(n, bs);
    assert(a == head + mid + tail);
    assert(a.subrange(0, 8) =~= head);
    assert forall|k: int| 1 <= k < bs.len() implies a.subrange(8 + 4 * (k - 1), 8 + 4 * k) == seq![
        ";"@,
        "split-window"@,
        "-c"@,
        #[trigger] bs[k],
    ] by {
        assert(rest[k - 1] == bs[k]);
        assert(mid.subrange(4 * (k - 1), 4 * (k - 1) + 4) == later_args_for(rest[k - 1], true));
        assert(a.subrange(8 + 4 * (k - 1), 8 + 4 * k) =~= mid.subrange(4 * (k - 1), 4 * (k - 1) + 4));
    }
    assert(a.subrange(a.len() - 7, a.len() as int) =~= tail);
}

proof fn lemma_later_args_windows(rest: Seq<Seq<char>>)
    ensures
        later_args(rest, false).len() == 7 * rest.len(),
        forall|k: int|
            0 <= k < rest.len() ==> later_args(rest, false).subrange(7 * k, 7 * k + 7)
                == later_args_for(#[trigger] rest[k], false),
    decreases rest.len(),
{
    if rest.len() > 0 {
        let init = rest.drop_last();
        lemma_later_args_windows(init);
        let a = later_args(init, false);
        let b = later_args_for(rest.last(), false);
        assert(later_args(rest, false) == a + b);
        assert forall|k: int| 0 <= k < rest.len() implies later_args(rest, false).subrange(
            7 * k,
            7 * k + 7,
        ) == later_args_for(#[trigger] rest[k], false) by {
            if k < init.len() {
                assert(init[k] == rest[k]);
                assert((a + b).subrange(7 * k, 7 * k + 7) =~= a.subrange(7 * k, 7 * k + 7));
            } else {
                assert((a + b).subrange(7 * k, 7 * k + 7) =~= b);
            }
        }
    }
}

proof fn lemma_later_args_panes(rest: Seq<Seq<char>>)
    ensures
        later_args(rest, true).len() == 4 * rest.len(),
        forall|k: int|
            0 <= k < rest.len() ==> later_args(rest, true).subrange(4 * k, 4 * k + 4)
                == later_args_for(#[trigger] rest[k], true),
    decreases rest.len(),
{
    if rest.len() > 0 {
        let init = rest.drop_last();
        lemma_later_args_panes(init);
        let a = later_args(init, true);
        let b = later_args_for(rest.last(), true);
        assert(later_args(rest, true) == a + b);
        assert forall|k: int| 0 <= k < rest.len() implies later_args(rest, true).subrange(
            4 * k,
            4 * k + 4,
        ) == later_args_for(#[trigger] rest[k], true) by {
            if k < init.len() {
                assert(init[k] == rest[k]);
                assert((a + b).subrange(4 * k, 4 * k + 4) =~= a.subrange(4 * k, 4 * k + 4));
            } else {
                assert((a + b).subrange(4 * k, 4 * k + 4) =~= b);
            }
        }
    }
}

} // verus!
