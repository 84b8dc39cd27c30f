//! The saved sessions: named bookmark lists, kept in name order.
use vstd::prelude::*;
use vstd::string::*;

use crate::paths::views;
use crate::text::{lemma_seq_lt_irreflexive, lemma_seq_lt_total, lemma_seq_lt_transitive, seq_lt, str_equal, str_less};

verus! {

/// One session's bookmarks, in insertion order.
#[derive(Debug)]
pub struct BookmarkState {
    pub bookmarks: Vec<String>,
}

impl View for BookmarkState {
    type V = Seq<Seq<char>>;

    open spec fn view(&self) -> Seq<Seq<char>> {
        views(self.bookmarks@)
    }
}

impl BookmarkState {
    /// A session with no bookmarks.
    pub fn new() -> (r: BookmarkState)
        ensures
            r@ == Seq::<Seq<char>>::empty(),
    {
        let r = BookmarkState { bookmarks: Vec::new() };
        assert(r@ =~= Seq::<Seq<char>>::empty());
        r
    }
}

/// The abstract contents of one saved session: its name and its bookmarks.
pub type EntryView = (Seq<char>, Seq<Seq<char>>);

/// Entries whose names strictly increase, so that no name occurs twice.
pub open spec fn sorted_names(m: Seq<EntryView>) -> bool {
    forall|i: int, j: int| #![trigger m[i], m[j]] 0 <= i < j < m.len() ==> seq_lt(m[i].0, m[j].0)
}

/// Whether some entry carries the name `k`.
pub open spec fn has_name(m: Seq<EntryView>, k: Seq<char>) -> bool {
    exists|i: int| 0 <= i < m.len() && #[trigger] m[i].0 == k
}

/// The position of an entry named `k`.
pub open spec fn index_of(m: Seq<EntryView>, k: Seq<char>) -> int {
    choose|i: int| 0 <= i < m.len() && #[trigger] m[i].0 == k
}

/// The entries read as a map from session name to bookmarks.
pub open spec fn entries_map(m: Seq<EntryView>) -> Map<Seq<char>, Seq<Seq<char>>> {
    Map::new(|k: Seq<char>| has_name(m, k), |k: Seq<char>| m[index_of(m, k)].1)
}

/// The names of the entries, in order.
pub open spec fn entry_names(m: Seq<EntryView>) -> Seq<Seq<char>> {
    m.map_values(|e: EntryView| e.0)
}

proof fn lemma_sorted_unique(m: Seq<EntryView>, i: int, j: int)
    requires
        sorted_names(m),
        0 <= i < m.len(),
        0 <= j < m.len(),
        m[i].0 == m[j].0,
    ensures
        i == j,
{
    if i < j {
        lemma_seq_lt_irreflexive(m[i].0);
    } else if j < i {
        lemma_seq_lt_irreflexive(m[i].0);
    }
}

/// The map holds each entry under its name.
pub proof fn lemma_entries_map_at(m: Seq<EntryView>, idx: int)
    requires
        sorted_names(m),
        0 <= idx < m.len(),
    ensures
        entries_map(m).dom().contains(m[idx].0),
        entries_map(m)[m[idx].0] == m[idx].1,
{
    let k = m[idx].0;
    assert(has_name(m, k));
    let j = index_of(m, k);
    lemma_sorted_unique(m, idx, j);
}

proof fn lemma_entries_map_update(m: Seq<EntryView>, i: int, v: Seq<Seq<char>>)
    requires
        sorted_names(m),
        0 <= i < m.len(),
    ensures
        sorted_names(m.update(i, (m[i].0, v))),
        entries_map(m.update(i, (m[i].0, v))) == entries_map(m).insert(m[i].0, v),
{
    let n = m.update(i, (m[i].0, v));
    assert(sorted_names(n)) by {
        assert forall|a: int, b: int| #![trigger n[a], n[b]] 0 <= a < b < n.len() implies seq_lt(
            n[a].0,
            n[b].0,
        ) by {
            assert(n[a].0 == m[a].0);
            assert(n[b].0 == m[b].0);
        }
    }
    let k = m[i].0;
    let lhs = entries_map(n);
    let rhs = entries_map(m).insert(k, v);
    assert forall|q: Seq<char>| lhs.dom().contains(q) <==> rhs.dom().contains(q) by {
        if has_name(n, q) {
            let j = choose|j: int| 0 <= j < n.len() && #[trigger] n[j].0 == q;
            assert(m[j].0 == q);
        }
        if has_name(m, q) {
            let j = choose|j: int| 0 <= j < m.len() && #[trigger] m[j].0 == q;
            assert(n[j].0 == q);
        }
    }
    assert forall|q: Seq<char>| lhs.dom().contains(q) implies lhs[q] == rhs[q] by {
        let j = choose|j: int| 0 <= j < n.len() && #[trigger] n[j].0 == q;
        lemma_entries_map_at(n, j);
        if q == k {
            lemma_sorted_unique(n, i, j);
        }
        if j != i {
            lemma_entries_map_at(m, j);
            assert(n[j] == m[j]);
        }
    }
    assert(lhs =~= rhs);
}

proof fn lemma_entries_map_insert(m: Seq<EntryView>, p: int, k: Seq<char>, v: Seq<Seq<char>>)
    requires
        sorted_names(m),
        0 <= p <= m.len(),
        forall|i: int| 0 <= i < p ==> seq_lt(#[trigger] m[i].0, k),
        forall|i: int| p <= i < m.len() ==> seq_lt(k, #[trigger] m[i].0),
    ensures
        sorted_names(m.insert(p, (k, v))),
        !entries_map(m).dom().contains(k),
        entries_map(m.insert(p, (k, v))) == entries_map(m).insert(k, v),
{
    let n = m.insert(p, (k, v));
    assert(sorted_names(n)) by {
        assert forall|a: int, b: int| #![trigger n[a], n[b]] 0 <= a < b < n.len() implies seq_lt(
            n[a].0,
            n[b].0,
        ) by {
            if b < p {
                assert(n[a] == m[a] && n[b] == m[b]);
            } else if b == p {
                assert(n[a] == m[a]);
            } else if a < p {
                assert(n[a] == m[a] && n[b] == m[b - 1]);
                lemma_seq_lt_transitive(m[a].0, k, m[b - 1].0);
            } else if a == p {
                assert(n[b] == m[b - 1]);
            } else {
                assert(n[a] == m[a - 1] && n[b] == m[b - 1]);
            }
        }
    }
    if has_name(m, k) {
        let j = choose|j: int| 0 <= j < m.len() && #[trigger] m[j].0 == k;
        lemma_seq_lt_irreflexive(k);
        if j < p {
            assert(seq_lt(m[j].0, k));
        } else {
            assert(seq_lt(k, m[j].0));
        }
    }
    let lhs = entries_map(n);
    let rhs = entries_map(m).insert(k, v);
    assert forall|q: Seq<char>| lhs.dom().contains(q) <==> rhs.dom().contains(q) by {
        if has_name(n, q) {
            let j = choose|j: int| 0 <= j < n.len() && #[trigger] n[j].0 == q;
            if j < p {
                assert(m[j].0 == q);
            } else if j > p {
                assert(m[j - 1].0 == q);
            }
        }
        if has_name(m, q) {
            let j = choose|j: int| 0 <= j < m.len() && #[trigger] m[j].0 == q;
            if j < p {
                assert(n[j].0 == q);
            } else {
                assert(n[j + 1].0 == q);
            }
        }
        if q == k {
            assert(n[p].0 == q);
        }
    }
    assert forall|q: Seq<char>| lhs.dom().contains(q) implies lhs[q] == rhs[q] by {
        let j = choose|j: int| 0 <= j < n.len() && #[trigger] n[j].0 == q;
        lemma_entries_map_at(n, j);
        if j < p {
            lemma_entries_map_at(m, j);
            assert(n[j] == m[j]);
        } else if j > p {
            lemma_entries_map_at(m, j - 1);
            assert(n[j] == m[j - 1]);
        } else {
            assert(n[j] == (k, v));
        }
    }
    assert(lhs =~= rhs);
}

/// The abstract entries of stored ones.
pub open spec fn model_of(es: Seq<(String, BookmarkState)>) -> Seq<EntryView> {
    es.map_values(|e: (String, BookmarkState)| (e.0@, e.1@))
}

proof fn lemma_model_of_update(es: Seq<(String, BookmarkState)>, i: int, b: BookmarkState)
    requires
        0 <= i < es.len(),
    ensures
        model_of(es.update(i, (es[i].0, b))) == model_of(es).update(i, (es[i].0@, b@)),
{
    assert(model_of(es.update(i, (es[i].0, b))) =~= model_of(es).update(i, (es[i].0@, b@)));
}

/// All saved sessions, kept sorted by name as a `BTreeMap` keeps them.
#[derive(Debug)]
pub struct SessionsState {
    entries: Vec<(String, BookmarkState)>,
}

impl View for SessionsState {
    type V = Map<Seq<char>, Seq<Seq<char>>>;

    open spec fn view(&self) -> Map<Seq<char>, Seq<Seq<char>>> {
        entries_map(self.model())
    }
}

impl SessionsState {
    /// The entries as names and bookmark lists, in stored order.
    pub closed spec fn model(&self) -> Seq<EntryView> {
        model_of(self.entries@)
    }

    /// The stored order is strictly increasing by name.
    pub open spec fn wf(&self) -> bool {
        sorted_names(self.model())
    }

    /// The session names in the order that listings show them.
    pub open spec fn names(&self) -> Seq<Seq<char>> {
        entry_names(self.model())
    }

    /// The names are exactly the keys of the map, in increasing order.
    pub proof fn lemma_names(&self)
        requires
            self.wf(),
        ensures
            forall|i: int, j: int|
                0 <= i < j < self.names().len() ==> seq_lt(
                    #[trigger] self.names()[i],
                    #[trigger] self.names()[j],
                ),
            forall|i: int| 0 <= i < self.names().len() ==> self@.dom().contains(#[trigger] self.names()[i]),
            forall|k: Seq<char>| #[trigger] self@.dom().contains(k) ==> self.names().contains(k),
            self@.dom().finite(),
            self@.dom().len() == self.names().len(),
    {
        let m = self.model();
        let ns = self.names();
        assert forall|i: int, j: int| 0 <= i < j < ns.len() implies seq_lt(
            #[trigger] ns[i],
            #[trigger] ns[j],
        ) by {
            assert(seq_lt(m[i].0, m[j].0));
        }
        assert forall|i: int| 0 <= i < ns.len() implies self@.dom().contains(#[trigger] ns[i]) by {
            lemma_entries_map_at(m, i);
        }
        assert forall|k: Seq<char>| #[trigger] self@.dom().contains(k) implies ns.contains(k) by {
            let j = choose|j: int| 0 <= j < m.len() && #[trigger] m[j].0 == k;
            assert(ns[j] == k);
        }
        assert(self@.dom() =~= ns.to_set());
        assert forall|i: int, j: int| 0 <= i < ns.len() && 0 <= j < ns.len() && i != j implies ns[i]
            != ns[j] by {
            assert(ns[i] == m[i].0 && ns[j] == m[j].0);
            if ns[i] == ns[j] {
                lemma_sorted_unique(m, i, j);
            }
        }
        ns.unique_seq_to_set();
    }

    /// No sessions.
    pub fn new() -> (r: SessionsState)
        ensures
            r.wf(),
            r@ == Map::<Seq<char>, Seq<Seq<char>>>::empty(),
    {
        let r = SessionsState { entries: Vec::new() };
        assert(r.model() =~= Seq::<EntryView>::empty());
        assert(r@ =~= Map::<Seq<char>, Seq<Seq<char>>>::empty());
        r
    }

    /// The index of the entry named `name`.
    fn find(&self, name: &str) -> (r: Option<usize>)
        requires
            self.wf(),
        ensures
            r matches Some(i) ==> i < self.model().len() && self.model()[i as int].0 == name@,
            r is None ==> !self@.dom().contains(name@),
    {
        let mut i: usize = 0;
        while i < self.entries.len()
            invariant
                i <= self.entries.len(),
                forall|j: int| 0 <= j < i ==> self.model()[j].0 != name@,
            decreases self.entries.len() - i,
        {
            if str_equal(self.entries[i].0.as_str(), name) {
                return Some(i);
            }
            i = i + 1;
        }
        proof {
            if has_name(self.model(), name@) {
                let j = choose|j: int| 0 <= j < self.model().len() && #[trigger] self.model()[j].0
                    == name@;
                assert(self.model()[j].0 != name@);
            }
        }
        None
    }

    /// Whether a session named `name` exists.
    pub fn contains_session(&self, name: &str) -> (r: bool)
        requires
            self.wf(),
        ensures
            r == self@.dom().contains(name@),
    {
        match self.find(name) {
            Some(i) => {
                proof {
                    lemma_entries_map_at(self.model(), i as int);
                }
                true
            },
            None => false,
        }
    }

    /// The bookmarks of the session named `name`.
    pub fn get(&self, name: &str) -> (r: Option<&BookmarkState>)
        requires
            self.wf(),
        ensures
            match r {
                Some(b) => self@.dom().contains(name@) && b@ == self@[name@],
                None => !self@.dom().contains(name@),
            },
    {
        match self.find(name) {
            Some(i) => {
                proof {
                    lemma_entries_map_at(self.model(), i as int);
                }
                Some(&self.entries[i].1)
            },
            None => None,
        }
    }

    /// The bookmarks of the session named `name`, to change in place; the
    /// change lands in that session and nowhere else.
    pub fn get_mut(&mut self, name: &str) -> (r: Option<&mut BookmarkState>)
        requires
            old(self).wf(),
        ensures
            old(self)@.dom().contains(name@) ==> (r matches Some(b) && (*b)@ == old(self)@[name@]
                && final(self).wf() && final(self)@ == old(self)@.insert(name@, final(b)@)),
            !old(self)@.dom().contains(name@) ==> (r is None && *final(self) == *old(self)),
    {
        match self.find(name) {
            Some(i) => {
                proof {
                    lemma_entries_map_at(self.model(), i as int);
                }
                let ghost m = self.model();
                let ghost es = self.entries@;
                let r = &mut self.entries[i].1;
                proof {
                    lemma_entries_map_update(m, i as int, (*final(r))@);
                    lemma_model_of_update(es, i as int, *final(r));
                }
                Some(r)
            },
            None => None,
        }
    }

    /// Stores `state` under `name`, replacing what was there, as
    /// `BTreeMap::insert` does.
    pub fn insert_session(&mut self, name: String, state: BookmarkState)
        requires
            old(self).wf(),
        ensures
            final(self).wf(),
            final(self)@ == old(self)@.insert(name@, state@),
    {
        let ghost m = self.model();
        let mut p: usize = 0;
        while p < self.entries.len() && str_less(self.entries[p].0.as_str(), name.as_str())
            invariant
                p <= self.entries.len(),
                m == self.model(),
                forall|i: int| 0 <= i < p ==> seq_lt(#[trigger] m[i].0, name@),
            decreases self.entries.len() - p,
        {
            p = p + 1;
        }
        if p < self.entries.len() && str_equal(self.entries[p].0.as_str(), name.as_str()) {
            let ghost v = state@;
            self.entries.set(p, (name, state));
            proof {
                assert(self.model() =~= m.update(p as int, (m[p as int].0, v)));
                lemma_entries_map_update(m, p as int, v);
            }
        } else {
            proof {
                assert forall|i: int| p <= i < m.len() implies seq_lt(name@, #[trigger] m[i].0) by {
                    lemma_seq_lt_total(m[p as int].0, name@);
                    if i > p {
                        assert(seq_lt(m[p as int].0, m[i].0));
                        lemma_seq_lt_transitive(name@, m[p as int].0, m[i].0);
                    }
                }
            }
            let ghost k = name@;
            let ghost v = state@;
            self.entries.insert(p, (name, state));
            proof {
                assert(self.model() =~= m.insert(p as int, (k, v)));
                lemma_entries_map_insert(m, p as int, k, v);
            }
        }
    }

    /// The stored sessions, in name order.
    pub fn entries(&self) -> (r: &Vec<(String, BookmarkState)>)
        ensures
            r@.map_values(|e: (String, BookmarkState)| (e.0@, e.1@)) == self.model(),
    {
        &self.entries
    }

    /// The session names, in name order.
    pub fn session_names(&self) -> (r: Vec<String>)
        ensures
            views(r@) == self.names(),
    {
        let mut r: Vec<String> = Vec::new();
        let mut i: usize = 0;
        while i < self.entries.len()
            invariant
                i <= self.entries.len(),
                views(r@) == self.names().take(i as int),
            decreases self.entries.len() - i,
        {
            let ghost before = r@;
            r.push(self.entries[i].0.clone());
            assert(self.names()[i as int] == self.entries@[i as int].0@);
            assert(self.names().take(i + 1) =~= self.names().take(i as int).push(self.names()[i as int]));
            assert(views(r@) =~= views(before).push(self.entries@[i as int].0@));
            i = i + 1;
            assert(views(r@) =~= self.names().take(i as int));
        }
        assert(self.names().take(i as int) =~= self.names());
        r
    }
}

} // verus!
