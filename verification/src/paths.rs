//! Unix path strings: splitting into components, lexical normalization,
//! final components and the locations of the state files.
use vstd::prelude::*;
use vstd::string::*;

verus! {

/// The character contents of a vector of strings.
pub open spec fn views(v: Seq<String>) -> Seq<Seq<char>> {
    v.map_values(|s: String| s@)
}

/// The pieces of `s` between `/` separators, empty pieces included:
/// `"/a//b"` has the pieces `""`, `"a"`, `""`, `"b"`.
pub open spec fn pieces(s: Seq<char>) -> Seq<Seq<char>>
    decreases s.len(),
{
    if s.len() == 0 {
        seq![Seq::<char>::empty()]
    } else {
        let p = pieces(s.drop_last());
        if s.last() == '/' {
            p.push(Seq::<char>::empty())
        } else {
            p.update(p.len() - 1, p.last().push(s.last()))
        }
    }
}

/// A piece that names nothing: empty (a repeated or trailing separator) or `.`.
pub open spec fn is_blank(p: Seq<char>) -> bool {
    p.len() == 0 || p == seq!['.']
}

/// The `..` component.
pub open spec fn is_parent(p: Seq<char>) -> bool {
    p == seq!['.', '.']
}

/// A component that names a directory entry.
pub open spec fn is_normal(p: Seq<char>) -> bool {
    !is_blank(p) && !is_parent(p)
}

/// The directory stack that the pieces lead to: blanks are skipped, `..`
/// drops the last entry when there is one, other pieces are entered.
pub open spec fn resolve(ps: Seq<Seq<char>>) -> Seq<Seq<char>>
    decreases ps.len(),
{
    if ps.len() == 0 {
        Seq::empty()
    } else {
        let st = resolve(ps.drop_last());
        let p = ps.last();
        if is_blank(p) {
            st
        } else if is_parent(p) {
            if st.len() > 0 {
                st.drop_last()
            } else {
                st
            }
        } else {
            st.push(p)
        }
    }
}

/// The components joined by `/`.
pub open spec fn join_all(st: Seq<Seq<char>>) -> Seq<char>
    decreases st.len(),
{
    if st.len() == 0 {
        Seq::empty()
    } else if st.len() == 1 {
        st[0]
    } else {
        join_all(st.drop_last()).push('/') + st.last()
    }
}

/// Whether `s` is an absolute path (starts at the root directory).
pub open spec fn is_absolute(s: Seq<char>) -> bool {
    s.len() > 0 && s[0] == '/'
}

/// The lexical normal form of `s`: `.` and empty pieces removed, `..`
/// resolved against the preceding component, symlinks left alone.
pub open spec fn normal_form(s: Seq<char>) -> Seq<char> {
    let body = join_all(resolve(pieces(s)));
    if is_absolute(s) {
        seq!['/'] + body
    } else {
        body
    }
}

/// The last component of the pieces that is not blank, if any.
pub open spec fn last_component(ps: Seq<Seq<char>>) -> Option<Seq<char>>
    decreases ps.len(),
{
    if ps.len() == 0 {
        None
    } else if is_blank(ps.last()) {
        last_component(ps.drop_last())
    } else {
        Some(ps.last())
    }
}

/// The final component of `path`, or `"bmersive"` where `path` ends in
/// `..`, is the root, or names no component at all.
pub open spec fn basename_of(path: Seq<char>) -> Seq<char> {
    match last_component(pieces(path)) {
        Some(c) => if is_parent(c) { "bmersive"@ } else { c },
        None => "bmersive"@,
    }
}

/// `base` extended by the relative component `part`, with a separator
/// between them unless `base` is empty or already ends in one.
pub open spec fn join_path(base: Seq<char>, part: Seq<char>) -> Seq<char> {
    if base.len() > 0 && base.last() != '/' {
        base.push('/') + part
    } else {
        base + part
    }
}

pub proof fn lemma_pieces_nonempty(s: Seq<char>)
    ensures
        pieces(s).len() >= 1,
    decreases s.len(),
{
    if s.len() > 0 {
        lemma_pieces_nonempty(s.drop_last());
    }
}

/// Splits `s` at every `/`.
pub fn split_pieces(s: &str) -> (r: Vec<String>)
    ensures
        views(r@) == pieces(s@),
{
    let len = s.unicode_len();
    let mut done: Vec<String> = Vec::new();
    let mut start: usize = 0;
    let mut i: usize = 0;
    assert(s@.take(0) =~= Seq::<char>::empty());
    assert(s@.subrange(0, 0) =~= Seq::<char>::empty());
    assert(views(done@) + seq![s@.subrange(0, 0)] =~= pieces(s@.take(0)));
    while i < len
        invariant
            start <= i <= len,
            len == s@.len(),
            views(done@) + seq![s@.subrange(start as int, i as int)] == pieces(s@.take(i as int)),
        decreases len - i,
    {
        let c = s.get_char(i);
        let ghost before = pieces(s@.take(i as int));
        assert(s@.take(i + 1).drop_last() =~= s@.take(i as int));
        assert(s@.take(i + 1).last() == c);
        proof { lemma_pieces_nonempty(s@.take(i as int)); }
        if c == '/' {
            let piece = String::from_str(s.substring_char(start, i));
            let ghost old_done = done@;
            done.push(piece);
            assert(views(done@) =~= views(old_done).push(s@.subrange(start as int, i as int)));
            start = i + 1;
            i = i + 1;
            assert(s@.subrange(start as int, i as int) =~= Seq::<char>::empty());
            assert(views(done@) + seq![s@.subrange(start as int, i as int)] =~= before.push(
                Seq::<char>::empty(),
            ));
        } else {
            assert(s@.subrange(start as int, i + 1) =~= s@.subrange(start as int, i as int).push(c));
            i = i + 1;
            assert(views(done@) + seq![s@.subrange(start as int, i as int)] =~= before.update(
                before.len() - 1,
                before.last().push(c),
            ));
        }
    }
    let last = String::from_str(s.substring_char(start, len));
    let ghost old_done = done@;
    done.push(last);
    assert(s@.take(len as int) =~= s@);
    assert(views(done@) =~= views(old_done) + seq![s@.subrange(start as int, len as int)]);
    done
}

/// Whether the piece `p` is empty or `.`.
pub fn is_blank_piece(p: &str) -> (r: bool)
    ensures
        r == is_blank(p@),
{
    let n = p.unicode_len();
    if n == 0 {
        return true;
    }
    let r = n == 1 && p.get_char(0) == '.';
    assert(r ==> p@ =~= seq!['.']);
    r
}

/// Whether the piece `p` is `..`.
pub fn is_parent_piece(p: &str) -> (r: bool)
    ensures
        r == is_parent(p@),
{
    let r = p.unicode_len() == 2 && p.get_char(0) == '.' && p.get_char(1) == '.';
    assert(r ==> p@ =~= seq!['.', '.']);
    r
}

/// The components joined by `/`.
pub fn join_components(st: &Vec<String>) -> (r: String)
    ensures
        r@ == join_all(views(st@)),
{
    let ghost vs = views(st@);
    let mut r = String::new();
    let mut k: usize = 0;
    assert(vs.take(0) =~= Seq::<Seq<char>>::empty());
    while k < st.len()
        invariant
            k <= st.len(),
            vs == views(st@),
            r@ == join_all(vs.take(k as int)),
        decreases st.len() - k,
    {
        assert(vs.take(k + 1).drop_last() =~= vs.take(k as int));
        assert(vs.take(k + 1).last() == st@[k as int]@);
        let ghost before = r@;
        if k > 0 {
            r.append("/");
            proof {
                reveal_strlit("/");
            }
            assert("/"@ =~= seq!['/']);
            assert(r@ =~= before.push('/'));
        } else {
            assert(r@ =~= Seq::<char>::empty());
        }
        r.append(st[k].as_str());
        k = k + 1;
        assert(r@ =~= join_all(vs.take(k as int)));
    }
    assert(vs.take(st.len() as int) =~= vs);
    r
}

/// The lexical normal form of a path: `.` and empty pieces are dropped and
/// each `..` removes the component before it; symlinks are not followed.
pub fn normalize_absolute_path(path: &str) -> (r: String)
    ensures
        r@ == normal_form(path@),
{
    let ps = split_pieces(path);
    let ghost vps = views(ps@);
    let mut st: Vec<String> = Vec::new();
    let mut k: usize = 0;
    assert(vps.take(0) =~= Seq::<Seq<char>>::empty());
    assert(views(st@) =~= resolve(vps.take(0)));
    while k < ps.len()
        invariant
            k <= ps.len(),
            vps == views(ps@),
            views(st@) == resolve(vps.take(k as int)),
        decreases ps.len() - k,
    {
        assert(vps.take(k + 1).drop_last() =~= vps.take(k as int));
        assert(vps.take(k + 1).last() == ps@[k as int]@);
        let p = ps[k].as_str();
        let ghost old_st = st@;
        if is_blank_piece(p) {
        } else if is_parent_piece(p) {
            if st.len() > 0 {
                st.pop();
                assert(views(st@) =~= views(old_st).drop_last());
            }
        } else {
            st.push(String::from_str(p));
            assert(views(st@) =~= views(old_st).push(p@));
        }
        k = k + 1;
    }
    assert(vps.take(ps.len() as int) =~= vps);
    let body = join_components(&st);
    let n = path.unicode_len();
    if n > 0 && path.get_char(0) == '/' {
        let mut r = String::from_str("/");
        proof {
            reveal_strlit("/");
        }
        r.append(body.as_str());
        assert(r@ =~= seq!['/'] + body@);
        r
    } else {
        body
    }
}

/// The final component of `path`, as `Path::file_name` finds it, or
/// `"bmersive"` where there is none.
pub fn basename(path: &str) -> (r: String)
    ensures
        r@ == basename_of(path@),
{
    let ps = split_pieces(path);
    let ghost vps = views(ps@);
    let mut k: usize = ps.len();
    assert(vps.take(k as int) =~= vps);
    while k > 0 && is_blank_piece(ps[k - 1].as_str())
        invariant
            k <= ps.len(),
            vps == views(ps@),
            last_component(vps) == last_component(vps.take(k as int)),
        decreases k,
    {
        assert(vps.take(k as int).drop_last() =~= vps.take(k - 1));
        k = k - 1;
    }
    if k == 0 || is_parent_piece(ps[k - 1].as_str()) {
        proof {
            reveal_strlit("bmersive");
        }
        String::from_str("bmersive")
    } else {
        assert(vps.take(k as int).last() == ps@[k - 1]@);
        ps[k - 1].clone()
    }
}

/// `base` extended by the relative component `part`, as `PathBuf::join`
/// joins a relative path.
pub fn join_path_str(base: &str, part: &str) -> (r: String)
    ensures
        r@ == join_path(base@, part@),
{
    let n = base.unicode_len();
    let mut r = String::from_str(base);
    if n > 0 && base.get_char(n - 1) != '/' {
        proof {
            reveal_strlit("/");
        }
        r.append("/");
    }
    r.append(part);
    r
}

/// Whether `p` contains no separator.
pub open spec fn no_separator(p: Seq<char>) -> bool {
    forall|i: int| 0 <= i < p.len() ==> p[i] != '/'
}

/// Every piece is free of separators.
pub proof fn lemma_pieces_no_separator(s: Seq<char>)
    ensures
        forall|i: int| 0 <= i < pieces(s).len() ==> no_separator(#[trigger] pieces(s)[i]),
    decreases s.len(),
{
    if s.len() > 0 {
        lemma_pieces_no_separator(s.drop_last());
        lemma_pieces_nonempty(s.drop_last());
        let p = pieces(s.drop_last());
        if s.last() != '/' {
            let q = p.last().push(s.last());
            assert(no_separator(p[p.len() - 1]));
            assert(no_separator(q));
        }
    }
}

/// A separator-free string is a single piece.
proof fn lemma_pieces_single(c: Seq<char>)
    requires
        no_separator(c),
    ensures
        pieces(c) == seq![c],
    decreases c.len(),
{
    if c.len() == 0 {
        assert(c =~= Seq::<char>::empty());
    } else {
        lemma_pieces_single(c.drop_last());
        assert(c[c.len() - 1] != '/');
        assert(c.drop_last().push(c.last()) =~= c);
        let p = pieces(c.drop_last());
        assert(p.update(p.len() - 1, p.last().push(c.last())) =~= seq![c]);
    }
}

/// Pieces split at a separator: those of the left part, then those of the right.
proof fn lemma_pieces_concat(x: Seq<char>, y: Seq<char>)
    ensures
        pieces(x.push('/') + y) == pieces(x) + pieces(y),
    decreases y.len(),
{
    let xs = x.push('/');
    if y.len() == 0 {
        assert(xs + y =~= xs);
        assert(xs.drop_last() =~= x);
    } else {
        lemma_pieces_concat(x, y.drop_last());
        lemma_pieces_nonempty(y.drop_last());
        assert((xs + y).drop_last() =~= xs + y.drop_last());
        assert((xs + y).last() == y.last());
        let a = pieces(x);
        let b = pieces(y.drop_last());
        if y.last() == '/' {
            assert((a + b).push(Seq::<char>::empty()) =~= a + b.push(Seq::<char>::empty()));
        } else {
            assert((a + b).update((a + b).len() - 1, (a + b).last().push(y.last())) =~= a + b.update(
                b.len() - 1,
                b.last().push(y.last()),
            ));
        }
    }
}

/// A component sequence that normalization leaves as it is.
pub open spec fn clean(st: Seq<Seq<char>>) -> bool {
    forall|i: int| 0 <= i < st.len() ==> is_normal(#[trigger] st[i]) && no_separator(st[i])
}

/// Resolving yields clean components.
proof fn lemma_resolve_clean(ps: Seq<Seq<char>>)
    requires
        forall|i: int| 0 <= i < ps.len() ==> no_separator(#[trigger] ps[i]),
    ensures
        clean(resolve(ps)),
    decreases ps.len(),
{
    if ps.len() > 0 {
        assert forall|i: int| 0 <= i < ps.drop_last().len() implies no_separator(
            #[trigger] ps.drop_last()[i],
        ) by {
            assert(ps.drop_last()[i] == ps[i]);
        }
        lemma_resolve_clean(ps.drop_last());
        let st = resolve(ps.drop_last());
        let p = ps.last();
        if !is_blank(p) && !is_parent(p) {
            assert(no_separator(ps[ps.len() - 1]));
            assert forall|i: int| 0 <= i < st.push(p).len() implies is_normal(
                #[trigger] st.push(p)[i],
            ) && no_separator(st.push(p)[i]) by {
                if i < st.len() {
                    assert(st.push(p)[i] == st[i]);
                }
            }
        } else if is_parent(p) && st.len() > 0 {
            assert forall|i: int| 0 <= i < st.drop_last().len() implies is_normal(
                #[trigger] st.drop_last()[i],
            ) && no_separator(st.drop_last()[i]) by {
                assert(st.drop_last()[i] == st[i]);
            }
        }
    }
}

/// Clean components appended after `a` are entered one by one.
proof fn lemma_resolve_append_clean(a: Seq<Seq<char>>, b: Seq<Seq<char>>)
    requires
        clean(b),
    ensures
        resolve(a + b) == resolve(a) + b,
    decreases b.len(),
{
    if b.len() == 0 {
        assert(a + b =~= a);
        assert(resolve(a) + b =~= resolve(a));
    } else {
        assert forall|i: int| 0 <= i < b.drop_last().len() implies is_normal(
            #[trigger] b.drop_last()[i],
        ) && no_separator(b.drop_last()[i]) by {
            assert(b.drop_last()[i] == b[i]);
        }
        lemma_resolve_append_clean(a, b.drop_last());
        assert((a + b).drop_last() =~= a + b.drop_last());
        assert((a + b).last() == b.last());
        assert(is_normal(b[b.len() - 1]));
        assert((resolve(a) + b.drop_last()).push(b.last()) =~= resolve(a) + b);
    }
}

/// Joining clean components and splitting again gives them back.
proof fn lemma_pieces_join(st: Seq<Seq<char>>)
    requires
        clean(st),
        st.len() > 0,
    ensures
        pieces(join_all(st)) == st,
        join_all(st).len() > 0,
        join_all(st)[0] == st[0][0],
    decreases st.len(),
{
    assert(is_normal(st[0]) && no_separator(st[0]));
    if st.len() == 1 {
        lemma_pieces_single(st[0]);
        assert(seq![st[0]] =~= st);
    } else {
        let init = st.drop_last();
        assert forall|i: int| 0 <= i < init.len() implies is_normal(#[trigger] init[i])
            && no_separator(init[i]) by {
            assert(init[i] == st[i]);
        }
        lemma_pieces_join(init);
        assert(is_normal(st[st.len() - 1]) && no_separator(st[st.len() - 1]));
        lemma_pieces_single(st.last());
        lemma_pieces_concat(join_all(init), st.last());
        assert(init + seq![st.last()] =~= st);
        assert(init[0] == st[0]);
    }
}

/// Normalizing a normal form changes nothing.
pub proof fn lemma_normal_form_idempotent(s: Seq<char>)
    ensures
        normal_form(normal_form(s)) == normal_form(s),
{
    lemma_pieces_no_separator(s);
    lemma_resolve_clean(pieces(s));
    let st = resolve(pieces(s));
    let body = join_all(st);
    let n = normal_form(s);
    let empty = Seq::<char>::empty();
    let blank = seq![empty];
    assert(pieces(empty) == blank);
    assert(resolve(blank) == resolve(blank.drop_last()));
    assert(blank.drop_last() =~= Seq::<Seq<char>>::empty());
    assert(resolve(blank) =~= Seq::<Seq<char>>::empty());
    if st.len() > 0 {
        lemma_pieces_join(st);
        lemma_resolve_append_clean(Seq::empty(), st);
        assert(Seq::<Seq<char>>::empty() + st =~= st);
        assert(resolve(st) == st);
    }
    if is_absolute(s) {
        assert(n == seq!['/'] + body);
        assert(seq!['/'] =~= empty.push('/'));
        assert(empty.push('/') + body =~= n);
        lemma_pieces_concat(empty, body);
        assert(is_absolute(n));
        if st.len() > 0 {
            lemma_resolve_append_clean(blank, st);
        } else {
            assert(body =~= empty);
            assert(blank + blank =~= blank.push(empty));
            assert((blank + blank).drop_last() =~= blank);
        }
    } else {
        assert(n == body);
        if st.len() == 0 {
            assert(body =~= empty);
        }
    }
}

/// A normal form is absolute exactly when the path was.
pub proof fn lemma_normal_form_absolute(s: Seq<char>)
    ensures
        is_absolute(normal_form(s)) == is_absolute(s),
{
    lemma_pieces_no_separator(s);
    lemma_resolve_clean(pieces(s));
    let st = resolve(pieces(s));
    if st.len() > 0 {
        lemma_pieces_join(st);
        assert(is_normal(st[0]) && no_separator(st[0]));
    }
    if is_absolute(s) {
        assert((seq!['/'] + join_all(st))[0] == '/');
    }
}

proof fn lemma_resolve_skip_blank(a: Seq<Seq<char>>, p: Seq<char>, b: Seq<Seq<char>>)
    requires
        is_blank(p),
    ensures
        resolve(a.push(p) + b) == resolve(a + b),
    decreases b.len(),
{
    if b.len() == 0 {
        assert(a.push(p) + b =~= a.push(p));
        assert(a.push(p).drop_last() =~= a);
        assert(a + b =~= a);
    } else {
        lemma_resolve_skip_blank(a, p, b.drop_last());
        assert((a.push(p) + b).drop_last() =~= a.push(p) + b.drop_last());
        assert((a + b).drop_last() =~= a + b.drop_last());
        assert((a.push(p) + b).last() == b.last());
        assert((a + b).last() == b.last());
    }
}

/// A `.` segment between two parts of a path never changes the path it
/// names: `x/./y` and `x/y` have the same normal form.
pub proof fn lemma_dot_segment_ignored(x: Seq<char>, y: Seq<char>)
    ensures
        normal_form(x.push('/').push('.').push('/') + y) == normal_form(x.push('/') + y),
{
    let u = x.push('/').push('.');
    lemma_pieces_concat(u, y);
    lemma_pieces_concat(x, y);
    lemma_pieces_nonempty(x);
    assert(u.drop_last() =~= x.push('/'));
    assert(x.push('/').drop_last() =~= x);
    let px = pieces(x);
    assert(pieces(x.push('/')) == px.push(Seq::<char>::empty()));
    assert(px.push(Seq::<char>::empty()).update(px.len() as int, Seq::<char>::empty().push('.'))
        =~= px.push(seq!['.']));
    assert(pieces(u) == px.push(seq!['.']));
    lemma_resolve_skip_blank(px, seq!['.'], pieces(y));
    let l = x.push('/').push('.').push('/') + y;
    let r = x.push('/') + y;
    if x.len() > 0 {
        assert(l[0] == x[0] && r[0] == x[0]);
    } else {
        assert(l[0] == '/' && r[0] == '/');
    }
}

/// The components that a path names, in order: its pieces without the
/// blank ones (empty pieces and `.`), as `Path::components` lists the
/// components after the root.
pub open spec fn components(ps: Seq<Seq<char>>) -> Seq<Seq<char>>
    decreases ps.len(),
{
    if ps.len() == 0 {
        Seq::empty()
    } else if is_blank(ps.last()) {
        components(ps.drop_last())
    } else {
        components(ps.drop_last()).push(ps.last())
    }
}

proof fn lemma_components_concat(a: Seq<Seq<char>>, b: Seq<Seq<char>>)
    ensures
        components(a + b) == components(a) + components(b),
    decreases b.len(),
{
    if b.len() == 0 {
        assert(a + b =~= a);
        assert(components(a) + components(b) =~= components(a));
    } else {
        lemma_components_concat(a, b.drop_last());
        assert((a + b).drop_last() =~= a + b.drop_last());
        assert((a + b).last() == b.last());
        if !is_blank(b.last()) {
            assert((components(a) + components(b.drop_last())).push(b.last()) =~= components(a)
                + components(b.drop_last()).push(b.last()));
        }
    }
}

proof fn lemma_components_clean(st: Seq<Seq<char>>)
    requires
        clean(st),
    ensures
        components(st) == st,
    decreases st.len(),
{
    if st.len() > 0 {
        let init = st.drop_last();
        assert forall|i: int| 0 <= i < init.len() implies is_normal(#[trigger] init[i])
            && no_separator(init[i]) by {
            assert(init[i] == st[i]);
        }
        lemma_components_clean(init);
        assert(is_normal(st[st.len() - 1]));
        assert(init.push(st.last()) =~= st);
    }
}

proof fn lemma_resolve_without_parent(ps: Seq<Seq<char>>)
    requires
        forall|i: int| 0 <= i < ps.len() ==> !is_parent(#[trigger] ps[i]),
    ensures
        resolve(ps) == components(ps),
    decreases ps.len(),
{
    if ps.len() > 0 {
        let init = ps.drop_last();
        assert forall|i: int| 0 <= i < init.len() implies !is_parent(#[trigger] init[i]) by {
            assert(init[i] == ps[i]);
        }
        lemma_resolve_without_parent(init);
        assert(!is_parent(ps[ps.len() - 1]));
    }
}

proof fn lemma_components_not_parent(ps: Seq<Seq<char>>)
    requires
        forall|i: int| 0 <= i < components(ps).len() ==> !is_parent(#[trigger] components(ps)[i]),
    ensures
        forall|i: int| 0 <= i < ps.len() ==> !is_parent(#[trigger] ps[i]),
    decreases ps.len(),
{
    if ps.len() > 0 {
        let init = ps.drop_last();
        let c = components(init);
        if !is_blank(ps.last()) {
            assert(components(ps) == c.push(ps.last()));
            assert forall|i: int| 0 <= i < c.len() implies !is_parent(#[trigger] c[i]) by {
                assert(components(ps)[i] == c[i]);
            }
            assert(components(ps)[c.len() as int] == ps.last());
        } else {
            assert(components(ps) == c);
        }
        lemma_components_not_parent(init);
        assert forall|i: int| 0 <= i < ps.len() implies !is_parent(#[trigger] ps[i]) by {
            if i < init.len() {
                assert(init[i] == ps[i]);
            } else if is_blank(ps.last()) {
                assert(ps[i] == ps.last());
            }
        }
    }
}

/// The components of a normal form are the resolved directory stack.
proof fn lemma_normal_form_components(s: Seq<char>)
    ensures
        components(pieces(normal_form(s))) == resolve(pieces(s)),
{
    lemma_pieces_no_separator(s);
    lemma_resolve_clean(pieces(s));
    let st = resolve(pieces(s));
    let body = join_all(st);
    let n = normal_form(s);
    let empty = Seq::<char>::empty();
    let blank = seq![empty];
    assert(pieces(empty) == blank);
    assert(blank.drop_last() =~= Seq::<Seq<char>>::empty());
    assert(is_blank(blank.last()));
    assert(components(Seq::<Seq<char>>::empty()) =~= Seq::<Seq<char>>::empty());
    assert(components(blank) =~= Seq::<Seq<char>>::empty());
    if st.len() > 0 {
        lemma_pieces_join(st);
        lemma_components_clean(st);
    } else {
        assert(body =~= empty);
        assert(st =~= Seq::<Seq<char>>::empty());
    }
    if is_absolute(s) {
        assert(seq!['/'] =~= empty.push('/'));
        assert(empty.push('/') + body =~= n);
        lemma_pieces_concat(empty, body);
        lemma_components_concat(blank, pieces(body));
        assert(Seq::<Seq<char>>::empty() + components(pieces(body)) =~= components(pieces(body)));
    }
}

/// Lexical normalization, in full: the normal form names no `.` or `..`
/// component, keeps the path absolute or relative, and normalizing it again
/// changes nothing; a path that names no `..` keeps its components, one for
/// one. Only the text is read; nothing on disk is consulted.
pub proof fn lemma_normal_form_components_law(s: Seq<char>)
    ensures
        forall|i: int|
            0 <= i < components(pieces(normal_form(s))).len() ==> is_normal(
                #[trigger] components(pieces(normal_form(s)))[i],
            ),
        is_absolute(normal_form(s)) == is_absolute(s),
        normal_form(normal_form(s)) == normal_form(s),
        (forall|i: int|
            0 <= i < components(pieces(s)).len() ==> !is_parent(#[trigger] components(pieces(s))[i]))
            ==> components(pieces(normal_form(s))) == components(pieces(s)),
{
    lemma_normal_form_components(s);
    lemma_normal_form_absolute(s);
    lemma_normal_form_idempotent(s);
    lemma_pieces_no_separator(s);
    lemma_resolve_clean(pieces(s));
    lemma_normal_form_keeps_components(s);
}

proof fn lemma_normal_form_keeps_components(s: Seq<char>)
    ensures
        (forall|i: int|
            0 <= i < components(pieces(s)).len() ==> !is_parent(#[trigger] components(pieces(s))[i]))
            ==> components(pieces(normal_form(s))) == components(pieces(s)),
{
    let ps = pieces(s);
    lemma_normal_form_components(s);
    assert((forall|i: int| 0 <= i < components(ps).len() ==> !is_parent(#[trigger] components(ps)[i]))
        ==> resolve(ps) == components(ps)) by {
        if forall|i: int| 0 <= i < components(ps).len() ==> !is_parent(#[trigger] components(ps)[i]) {
            lemma_components_not_parent(ps);
            lemma_resolve_without_parent(ps);
        }
    }
}

proof fn lemma_join_clean_last(st: Seq<Seq<char>>)
    requires
        clean(st),
        st.len() > 0,
    ensures
        join_all(st).len() > 0,
        join_all(st).last() != '/',
    decreases st.len(),
{
    assert(is_normal(st[st.len() - 1]) && no_separator(st[st.len() - 1]));
    let l = st.last();
    assert(l[l.len() - 1] != '/');
    if st.len() > 1 {
        let j = join_all(st.drop_last()).push('/') + l;
        assert(j.last() == l.last());
    }
}

/// A `..` always cancels the component just before it, however deep the
/// path is: `x/c/..` names what `x` names.
pub proof fn law_parent_cancels_component(x: Seq<char>, c: Seq<char>)
    requires
        x.len() > 0,
        is_normal(c),
        no_separator(c),
    ensures
        normal_form(x.push('/') + c.push('/').push('.').push('.')) == normal_form(x),
{
    let dd = seq!['.', '.'];
    let y = c.push('/').push('.').push('.');
    assert(y =~= c.push('/') + dd);
    assert(no_separator(dd));
    lemma_pieces_concat(x, y);
    lemma_pieces_concat(c, dd);
    lemma_pieces_single(c);
    lemma_pieces_single(dd);
    let px = pieces(x);
    let q = px + seq![c, dd];
    assert(pieces(x.push('/') + y) =~= q);
    assert(q.drop_last() =~= px.push(c));
    assert(q.last() == dd);
    assert(px.push(c).drop_last() =~= px);
    assert(is_parent(dd));
    assert(resolve(px.push(c)) == resolve(px).push(c));
    assert(resolve(px).push(c).drop_last() =~= resolve(px));
    assert(resolve(q) == resolve(px));
    let l = x.push('/') + y;
    assert(l[0] == x[0]);
}

/// Entering a component: `x/c` names `c` inside what `x` names.
pub proof fn law_component_extends(x: Seq<char>, c: Seq<char>)
    requires
        x.len() > 0,
        is_normal(c),
        no_separator(c),
    ensures
        normal_form(x.push('/') + c) == join_path(normal_form(x), c),
{
    lemma_pieces_concat(x, c);
    lemma_pieces_single(c);
    lemma_pieces_no_separator(x);
    let px = pieces(x);
    lemma_resolve_clean(px);
    let st = resolve(px);
    assert(pieces(x.push('/') + c) =~= px.push(c));
    assert(px.push(c).drop_last() =~= px);
    assert(px.push(c).last() == c);
    assert(resolve(px.push(c)) == st.push(c));
    let st2 = st.push(c);
    assert(st2.drop_last() =~= st);
    let body = join_all(st);
    let empty = Seq::<char>::empty();
    if st.len() == 0 {
        assert(body =~= empty);
        assert(join_all(st2) == st2[0]);
    } else {
        lemma_join_clean_last(st);
        assert(join_all(st2) == body.push('/') + c);
    }
    let l = x.push('/') + c;
    assert(l[0] == x[0]);
    if is_absolute(x) {
        let n = seq!['/'] + body;
        assert(n.len() > 0);
        if st.len() == 0 {
            assert(n =~= seq!['/']);
            assert(seq!['/'] + c =~= n + c);
        } else {
            assert(n.last() == body.last());
            assert(seq!['/'] + (body.push('/') + c) =~= n.push('/') + c);
        }
    } else {
        if st.len() == 0 {
            assert(empty + c =~= c);
        }
    }
}

} // verus!
