//! Paths: what stands behind the last slash, and before it.
use crate::paths::{
    below, components, extension_spec, file_name_spec, is_absolute, join_path_spec, last_dot,
    names_component, parent_spec, path_spans, span_text, spans, strip_prefix_spec,
    with_file_name_spec,
};
use crate::service::reindex::shown_path;
use crate::text::{find_char, lemma_find_char, lemma_find_char_at};
use vstd::prelude::*;

verus! {

/// Whether the text can stand between two slashes and name something.
pub open spec fn is_name(t: Seq<char>) -> bool {
    t.len() > 0 && !t.contains('/') && t != seq!['.']
}

/// The path of what is named in the directory.
pub open spec fn in_dir(dir: Seq<char>, name: Seq<char>) -> Seq<char> {
    dir + seq!['/'] + name
}

proof fn lemma_spans_in_dir(dir: Seq<char>, name: Seq<char>, at: int)
    requires
        is_name(name),
        0 <= at <= dir.len() + 1,
    ensures
        spans(in_dir(dir, name), at) == spans(dir, at).push(
            (dir.len() as int + 1, in_dir(dir, name).len() as int),
        ),
    decreases dir.len() + 1 - at,
{
    let s = in_dir(dir, name);
    let n = dir.len() as int;
    if at == n + 1 {
        let tail = s.skip(at);
        assert(tail =~= name);
        lemma_find_char(tail, '/');
        if find_char(tail, '/') < tail.len() {
            assert(name[find_char(tail, '/')] == '/');
        }
        let end = at + find_char(tail, '/');
        assert(end == s.len());
        if end == at + 1 && s[at] == '.' {
            assert(name =~= seq!['.']);
        }
        assert(names_component(s, at, end));
        assert(spans(s, end + 1) =~= Seq::empty());
        assert(spans(dir, at) =~= Seq::empty());
        assert(spans(s, at) =~= spans(dir, at).push((n + 1, s.len() as int)));
    } else if at == n {
        assert(s[n] == '/');
        lemma_find_char_at(s.skip(at), '/', 0);
        assert(!names_component(s, at, at));
        lemma_spans_in_dir(dir, name, n + 1);
        assert(spans(dir, n) =~= Seq::empty());
        assert(spans(dir, n + 1) =~= Seq::empty());
    } else {
        let tail = dir.skip(at);
        let f = find_char(tail, '/');
        lemma_find_char(tail, '/');
        let whole = s.skip(at);
        assert forall|i: int| 0 <= i < f implies whole[i] != '/' by {
            assert(whole[i] == tail[i]);
        }
        if f < tail.len() {
            assert(whole[f] == tail[f]);
        } else {
            assert(whole[f] == s[n]);
        }
        lemma_find_char_at(whole, '/', f);
        let end = at + f;
        assert(names_component(s, at, end) == names_component(dir, at, end));
        lemma_spans_in_dir(dir, name, end + 1);
        assert(spans(s, at) =~= spans(dir, at).push((n + 1, s.len() as int)));
    }
}

proof fn lemma_span_bounds(s: Seq<char>, at: int)
    requires
        0 <= at <= s.len() + 1,
    ensures
        forall|i: int|
            0 <= i < spans(s, at).len() ==> at <= (#[trigger] spans(s, at)[i]).0 < spans(s, at)[i].1
                <= s.len(),
    decreases s.len() + 1 - at,
{
    if 0 <= at < s.len() {
        let f = find_char(s.skip(at), '/');
        lemma_find_char(s.skip(at), '/');
        lemma_span_bounds(s, at + f + 1);
        let rest = spans(s, at + f + 1);
        let all = spans(s, at);
        assert forall|i: int| 0 <= i < all.len() implies at <= (#[trigger] all[i]).0 < all[i].1
            <= s.len() by {
            if names_component(s, at, at + f) {
                if i > 0 {
                    assert(all[i] == rest[i - 1]);
                }
            } else {
                assert(all[i] == rest[i]);
            }
        }
    }
}

/// What is named in a directory has the components of the directory and its own name
/// behind them.
pub proof fn name_is_the_last_component(dir: Seq<char>, name: Seq<char>)
    requires
        is_name(name),
    ensures
        components(in_dir(dir, name)) == components(dir).push(name),
{
    let s = in_dir(dir, name);
    lemma_spans_in_dir(dir, name, 0);
    lemma_span_bounds(dir, 0);
    let cs = components(s);
    let ds = components(dir);
    assert forall|i: int| 0 <= i < cs.len() implies cs[i] == ds.push(name)[i] by {
        if i < ds.len() {
            let span = path_spans(dir)[i];
            assert(path_spans(s)[i] == span);
            assert(span_text(s, span) =~= span_text(dir, span));
        } else {
            assert(span_text(s, (dir.len() as int + 1, s.len() as int)) =~= name);
        }
    }
    assert(cs =~= ds.push(name));
}

/// The file name of a path is what it is named in its directory.
pub proof fn file_name_stands_behind_the_last_slash(dir: Seq<char>, name: Seq<char>)
    requires
        is_name(name),
        name != seq!['.', '.'],
    ensures
        file_name_spec(in_dir(dir, name)) == Some(name),
{
    let s = in_dir(dir, name);
    lemma_spans_in_dir(dir, name, 0);
    assert(span_text(s, path_spans(s).last()) =~= name);
}

/// Without a slash the whole path is the file name.
pub proof fn a_path_without_slash_is_a_file_name(name: Seq<char>)
    requires
        is_name(name),
    ensures
        name != seq!['.', '.'] ==> file_name_spec(name) == Some(name),
        parent_spec(name) == Some(Seq::<char>::empty()),
{
    let tail = name.skip(0);
    assert(tail =~= name);
    lemma_find_char(tail, '/');
    if find_char(tail, '/') < tail.len() {
        assert(name[find_char(tail, '/')] == '/');
    }
    assert(spans(name, name.len() as int + 1) =~= Seq::empty());
    assert(path_spans(name) =~= seq![(0int, name.len() as int)]);
    assert(span_text(name, path_spans(name).last()) =~= name);
    assert(!is_absolute(name)) by {
        if is_absolute(name) {
            assert(name.contains(name[0]));
        }
    }
    assert(name.take(0) =~= Seq::<char>::empty());
}

/// The parent of what is named in a directory is the directory.
pub proof fn parent_is_the_directory(up: Seq<char>, dir: Seq<char>, name: Seq<char>)
    requires
        is_name(dir),
        is_name(name),
    ensures
        parent_spec(in_dir(in_dir(up, dir), name)) == Some(in_dir(up, dir)),
        parent_spec(in_dir(Seq::empty(), name)) == Some(seq!['/']),
{
    let d = in_dir(up, dir);
    let s = in_dir(d, name);
    lemma_spans_in_dir(up, dir, 0);
    lemma_spans_in_dir(d, name, 0);
    let p = path_spans(s);
    assert(p[p.len() - 2].1 == d.len());
    assert(s.take(d.len() as int) =~= d);
    let none = Seq::<char>::empty();
    let top = in_dir(none, name);
    lemma_spans_in_dir(none, name, 0);
    assert(spans(none, 0) =~= Seq::empty());
    assert(top[0] == '/');
    assert(top.take(1) =~= seq!['/']);
}

/// Another name in the same directory.
pub proof fn another_name_stays_in_the_directory(
    up: Seq<char>,
    dir: Seq<char>,
    name: Seq<char>,
    other: Seq<char>,
)
    requires
        is_name(dir),
        is_name(name),
        name != seq!['.', '.'],
        is_name(other),
    ensures
        with_file_name_spec(in_dir(in_dir(up, dir), name), other) == in_dir(in_dir(up, dir), other),
{
    let d = in_dir(up, dir);
    file_name_stands_behind_the_last_slash(d, name);
    parent_is_the_directory(up, dir, name);
    assert(d.last() == dir.last());
    assert(dir.contains(dir.last()));
    assert(other.contains(other[0]));
    assert(join_path_spec(d, other) =~= in_dir(d, other));
}

proof fn lemma_last_dot(stem: Seq<char>, ext: Seq<char>)
    requires
        !ext.contains('.'),
    ensures
        last_dot(stem + seq!['.'] + ext) == stem.len(),
    decreases ext.len(),
{
    let t = stem + seq!['.'] + ext;
    if ext.len() == 0 {
        assert(t.last() == '.');
    } else {
        let shorter = ext.drop_last();
        assert(ext.contains(ext.last()));
        assert(!shorter.contains('.')) by {
            if shorter.contains('.') {
                let i = choose|i: int| 0 <= i < shorter.len() && shorter[i] == '.';
                assert(ext[i] == '.');
            }
        }
        assert(t.drop_last() =~= stem + seq!['.'] + shorter);
        lemma_last_dot(stem, shorter);
    }
}

proof fn lemma_no_dot(t: Seq<char>)
    requires
        !t.contains('.'),
    ensures
        last_dot(t) == -1,
    decreases t.len(),
{
    if t.len() > 0 {
        let head = t.drop_last();
        assert(t.contains(t.last()));
        assert(!head.contains('.')) by {
            if head.contains('.') {
                let i = choose|i: int| 0 <= i < head.len() && head[i] == '.';
                assert(t[i] == '.');
            }
        }
        lemma_no_dot(head);
    }
}

/// The extension of a file is what follows the last dot of its name, whatever the
/// directory is called. A name without a dot, or with a dot only at its beginning, has
/// none.
pub proof fn extension_follows_the_last_dot(dir: Seq<char>, stem: Seq<char>, ext: Seq<char>)
    requires
        stem.len() > 0,
        !stem.contains('/'),
        !ext.contains('/'),
        !ext.contains('.'),
        stem + seq!['.'] + ext != seq!['.', '.'],
    ensures
        extension_spec(in_dir(dir, stem + seq!['.'] + ext)) == Some(ext),
        !stem.contains('.') ==> extension_spec(in_dir(dir, stem)) is None,
        ext.len() > 0 ==> extension_spec(in_dir(dir, seq!['.'] + ext)) is None,
{
    let name = stem + seq!['.'] + ext;
    assert(!name.contains('/')) by {
        if name.contains('/') {
            let i = choose|i: int| 0 <= i < name.len() && name[i] == '/';
            if i < stem.len() {
                assert(stem[i] == '/');
            } else if i > stem.len() {
                assert(ext[i - stem.len() - 1] == '/');
            }
        }
    }
    assert(name.len() >= 2);
    file_name_stands_behind_the_last_slash(dir, name);
    lemma_last_dot(stem, ext);
    assert(name.skip(stem.len() as int + 1) =~= ext);
    if !stem.contains('.') {
        lemma_no_dot(stem);
        assert(stem != seq!['.']) by {
            if stem == seq!['.'] {
                assert(stem[0] == '.');
            }
        }
        assert(stem != seq!['.', '.']) by {
            if stem == seq!['.', '.'] {
                assert(stem[0] == '.');
            }
        }
        file_name_stands_behind_the_last_slash(dir, stem);
    }
    if ext.len() > 0 {
        let hidden = seq!['.'] + ext;
        assert(Seq::<char>::empty() + seq!['.'] + ext =~= hidden);
        lemma_last_dot(Seq::empty(), ext);
        assert(hidden[1] == ext[0] && ext.contains(ext[0]));
        assert(!hidden.contains('/')) by {
            if hidden.contains('/') {
                let i = choose|i: int| 0 <= i < hidden.len() && hidden[i] == '/';
                assert(ext[i - 1] == '/');
            }
        }
        file_name_stands_behind_the_last_slash(dir, hidden);
    }
}

proof fn lemma_below(dir: Seq<char>, name: Seq<char>)
    requires
        is_name(name),
        path_spans(dir).len() > 0,
    ensures
        below(in_dir(dir, name), dir),
        below(dir, dir),
{
    let s = in_dir(dir, name);
    lemma_spans_in_dir(dir, name, 0);
    lemma_span_bounds(dir, 0);
    let p = path_spans(s);
    let r = path_spans(dir);
    assert(r[0].1 <= dir.len());
    assert forall|i: int| 0 <= i < r.len() implies span_text(s, #[trigger] p[i]) == span_text(
        dir,
        r[i],
    ) by {
        assert(p[i] == r[i]);
        assert(span_text(s, p[i]) =~= span_text(dir, r[i]));
    }
}

/// What lies in a directory below the root is shown by its path from there, and the
/// root is not shown.
pub proof fn files_are_shown_from_their_root(
    root: Seq<char>,
    dir: Seq<char>,
    name: Seq<char>,
)
    requires
        path_spans(root).len() > 0,
        is_name(dir),
        is_name(name),
    ensures
        strip_prefix_spec(in_dir(root, name), root) == Some(name),
        strip_prefix_spec(in_dir(in_dir(root, dir), name), root) == Some(in_dir(dir, name)),
        shown_path(in_dir(root, name), root) == name,
        shown_path(in_dir(in_dir(root, dir), name), root) == in_dir(dir, name),
{
    let s = in_dir(root, name);
    lemma_spans_in_dir(root, name, 0);
    lemma_below(root, name);
    let r = path_spans(root);
    let p = path_spans(s);
    assert(s.subrange(p[r.len() as int].0, p.last().1) =~= name);
    let d = in_dir(root, dir);
    let t = in_dir(d, name);
    lemma_spans_in_dir(root, dir, 0);
    lemma_spans_in_dir(d, name, 0);
    lemma_below(root, dir);
    lemma_span_bounds(root, 0);
    let q = path_spans(t);
    assert(r[0].1 <= root.len());
    assert forall|i: int| 0 <= i < r.len() implies span_text(t, #[trigger] q[i]) == span_text(
        root,
        r[i],
    ) by {
        assert(q[i] == r[i]);
        assert(span_text(t, q[i]) =~= span_text(root, r[i]));
    }
    assert(below(t, root));
    assert(q[r.len() as int] == (root.len() as int + 1, d.len() as int));
    assert(t.subrange(root.len() as int + 1, t.len() as int) =~= in_dir(dir, name));
}

/// What is joined to a directory lies in it, unless it starts at the root itself; no
/// second slash is put in.
pub proof fn joining_puts_one_slash_between(dir: Seq<char>, p: Seq<char>)
    requires
        !is_absolute(p),
    ensures
        dir.len() > 0 && dir.last() != '/' ==> join_path_spec(dir, p) == in_dir(dir, p),
        join_path_spec(dir.push('/'), p) == in_dir(dir, p),
        join_path_spec(Seq::empty(), p) == p,
        join_path_spec(dir, in_dir(Seq::empty(), p)) == in_dir(Seq::empty(), p),
{
    assert(dir.push('/') + p =~= in_dir(dir, p));
    assert(Seq::<char>::empty() + p =~= p);
    assert(in_dir(Seq::<char>::empty(), p)[0] == '/');
}

} // verus!
