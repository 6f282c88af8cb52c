//! Slash-separated path texts: components, names, joining and order.
//!
//! Empty pieces and `.` pieces of a path name nothing, except for a leading `.`
//! of a relative path, which is a component of its own.
use crate::text::{
    chars_of, concat, find_char, find_from, join, join_spec, lemma_find_char, lemma_find_char_at,
    same_text, string_of, texts,
};
use vstd::prelude::*;
use vstd::string::*;

verus! {

/// Whether the path starts at the root.
pub open spec fn is_absolute(s: Seq<char>) -> bool {
    s.len() > 0 && s[0] == '/'
}

/// Whether the piece `s[at..end]` is a component.
pub open spec fn names_component(s: Seq<char>, at: int, end: int) -> bool {
    end > at && !(end == at + 1 && s[at] == '.' && at > 0)
}

/// Where the components of `s` that start at `at` or later begin and end.
pub open spec fn spans(s: Seq<char>, at: int) -> Seq<(int, int)>
    decreases s.len() - at + 1,
{
    if 0 <= at < s.len() {
        let end = at + find_char(s.skip(at), '/');
        if !(at <= end <= s.len()) {
            Seq::empty()
        } else if names_component(s, at, end) {
            seq![(at, end)] + spans(s, end + 1)
        } else {
            spans(s, end + 1)
        }
    } else {
        Seq::empty()
    }
}

/// The text of the component at `span`.
pub open spec fn span_text(s: Seq<char>, span: (int, int)) -> Seq<char> {
    s.subrange(span.0, span.1)
}

/// Where the components of the path begin and end.
pub open spec fn path_spans(s: Seq<char>) -> Seq<(int, int)> {
    spans(s, 0)
}

proof fn lemma_spans(s: Seq<char>, at: int)
    requires
        0 <= at <= s.len() + 1,
    ensures
        forall|i: int|
            0 <= i < spans(s, at).len() ==> at <= (#[trigger] spans(s, at)[i]).0 < spans(s, at)[i].1
                <= s.len(),
        forall|i: int, j: int|
            0 <= i < j < spans(s, at).len() ==> (#[trigger] spans(s, at)[i]).1 < (
            #[trigger] spans(s, at)[j]).0,
    decreases s.len() - at + 1,
{
    if at < s.len() {
        lemma_find_char(s.skip(at), '/');
        let end = at + find_char(s.skip(at), '/');
        lemma_spans(s, end + 1);
        let rest = spans(s, end + 1);
        let all = spans(s, at);
        if names_component(s, at, end) {
            assert(all == seq![(at, end)] + rest);
            assert forall|i: int| 0 <= i < all.len() implies at <= (#[trigger] all[i]).0 < all[i].1
                <= s.len() by {
                if i > 0 {
                    assert(all[i] == rest[i - 1]);
                }
            }
            assert forall|i: int, j: int| 0 <= i < j < all.len() implies (#[trigger] all[i]).1 < (
            #[trigger] all[j]).0 by {
                assert(all[j] == rest[j - 1]);
                if i > 0 {
                    assert(all[i] == rest[i - 1]);
                }
            }
        } else {
            assert(all == rest);
        }
    }
}

spec fn span_pairs(v: Seq<(usize, usize)>) -> Seq<(int, int)> {
    v.map_values(|p: (usize, usize)| (p.0 as int, p.1 as int))
}

fn component_spans(v: &Vec<char>) -> (r: Vec<(usize, usize)>)
    ensures
        span_pairs(r@) == path_spans(v@),
        forall|i: int| 0 <= i < r.len() ==> (#[trigger] r@[i]).0 < r@[i].1 <= v.len(),
        forall|i: int, j: int| 0 <= i < j < r.len() ==> (#[trigger] r@[i]).1 < (#[trigger] r@[j]).0,
{
    let mut r: Vec<(usize, usize)> = Vec::new();
    let mut at: usize = 0;
    assert(span_pairs(r@) + spans(v@, 0) =~= path_spans(v@));
    while at < v.len()
        invariant
            at <= v.len(),
            span_pairs(r@) + spans(v@, at as int) == path_spans(v@),
            forall|i: int| 0 <= i < r.len() ==> (#[trigger] r@[i]).0 < r@[i].1 <= v.len(),
        decreases v.len() - at,
    {
        let end = find_from(v, at, '/');
        let ghost before = span_pairs(r@);
        if end > at && !(end == at + 1 && v[at] == '.' && at > 0) {
            r.push((at, end));
            assert(span_pairs(r@) =~= before.push((at as int, end as int)));
            assert(before + (seq![(at as int, end as int)] + spans(v@, end + 1)) =~= span_pairs(r@)
                + spans(v@, end + 1));
        }
        if end == v.len() {
            at = end;
            assert(spans(v@, end + 1) =~= spans(v@, at as int));
        } else {
            at = end + 1;
        }
    }
    assert(span_pairs(r@) + spans(v@, at as int) =~= span_pairs(r@));
    proof {
        lemma_spans(v@, 0);
        assert forall|i: int, j: int| 0 <= i < j < r.len() implies (#[trigger] r@[i]).1 < (
        #[trigger] r@[j]).0 by {
            assert(span_pairs(r@)[i] == path_spans(v@)[i]);
            assert(span_pairs(r@)[j] == path_spans(v@)[j]);
        }
    }
    r
}

// ---------------------------------------------------------------------------
// Names
// ---------------------------------------------------------------------------

/// Whether a component is an ordinary name, neither `.` nor `..`.
pub open spec fn ordinary(t: Seq<char>) -> bool {
    t != seq!['.'] && t != seq!['.', '.']
}

/// The last component of the path, if it is an ordinary name.
pub open spec fn file_name_spec(s: Seq<char>) -> Option<Seq<char>> {
    let p = path_spans(s);
    if p.len() > 0 && ordinary(span_text(s, p.last())) {
        Some(span_text(s, p.last()))
    } else {
        None
    }
}

fn ordinary_piece(v: &Vec<char>, at: usize, end: usize) -> (r: bool)
    requires
        at < end <= v.len(),
    ensures
        r == ordinary(v@.subrange(at as int, end as int)),
{
    let ghost t = v@.subrange(at as int, end as int);
    let r = !(end - at == 1 && v[at] == '.') && !(end - at == 2 && v[at] == '.' && v[at + 1] == '.');
    proof {
        if end - at == 1 && v@[at as int] == '.' {
            assert(t =~= seq!['.']);
        }
        if end - at == 2 && v@[at as int] == '.' && v@[at + 1] == '.' {
            assert(t =~= seq!['.', '.']);
        }
        if t == seq!['.'] {
            assert(t.len() == 1 && t[0] == '.');
        }
        if t == seq!['.', '.'] {
            assert(t.len() == 2 && t[0] == '.' && t[1] == '.');
        }
    }
    r
}

/// The last component of the path, if it is an ordinary name.
pub fn file_name(path: &str) -> (r: Option<String>)
    ensures
        crate::text::opt_text(r) == file_name_spec(path@),
{
    let v = chars_of(path);
    let p = component_spans(&v);
    if p.len() == 0 {
        assert(path_spans(path@).len() == 0);
        return None;
    }
    let last: (usize, usize) = p[p.len() - 1];
    assert(span_pairs(p@).last() == (last.0 as int, last.1 as int));
    if ordinary_piece(&v, last.0, last.1) {
        Some(string_of(&v, last.0, last.1))
    } else {
        None
    }
}

/// The path without its last component; nothing for the root and for the empty
/// path.
pub open spec fn parent_spec(s: Seq<char>) -> Option<Seq<char>> {
    let p = path_spans(s);
    if p.len() == 0 {
        None
    } else if p.len() == 1 {
        Some(s.take(
            if is_absolute(s) {
                1
            } else {
                0
            },
        ))
    } else {
        Some(s.take(p[p.len() - 2].1))
    }
}

/// A path without its last component is shorter than the path.
pub proof fn lemma_parent_is_shorter(s: Seq<char>)
    ensures
        parent_spec(s) matches Some(up) ==> up.len() < s.len(),
{
    let p = path_spans(s);
    lemma_spans(s, 0);
    if p.len() == 1 {
        assert(p[0].0 < p[0].1 <= s.len());
        if is_absolute(s) {
            lemma_find_char(s.skip(0), '/');
            assert(s.skip(0)[0] == '/');
            assert(find_char(s.skip(0), '/') == 0);
            assert(p == spans(s, 1));
            lemma_spans(s, 1);
        }
    } else if p.len() > 1 {
        assert(p[p.len() - 2].1 < p[p.len() - 1].0);
        assert(p[p.len() - 1].0 < p[p.len() - 1].1 <= s.len());
    }
}

/// The path without its last component.
pub fn parent(path: &str) -> (r: Option<String>)
    ensures
        crate::text::opt_text(r) == parent_spec(path@),
{
    let v = chars_of(path);
    let p = component_spans(&v);
    let ghost g = path_spans(path@);
    assert(g.len() == p.len());
    if p.len() == 0 {
        return None;
    }
    if p.len() == 1 {
        let keep: usize = if v.len() > 0 && v[0] == '/' {
            1
        } else {
            0
        };
        let r = string_of(&v, 0, keep);
        assert(r@ =~= path@.take(keep as int));
        return Some(r);
    }
    let before: (usize, usize) = p[p.len() - 2];
    assert(span_pairs(p@)[p.len() - 2] == g[g.len() - 2]);
    let r = string_of(&v, 0, before.1);
    assert(r@ =~= path@.take(before.1 as int));
    Some(r)
}

/// `p` below `base`: an absolute `p` stands for itself, any other is appended
/// after a separator.
pub open spec fn join_path_spec(base: Seq<char>, p: Seq<char>) -> Seq<char> {
    if is_absolute(p) {
        p
    } else if base.len() == 0 || base.last() == '/' {
        base + p
    } else {
        base.push('/') + p
    }
}

/// `p` below `base`.
pub fn join_path(base: &str, p: &str) -> (r: String)
    ensures
        r@ == join_path_spec(base@, p@),
{
    let b = chars_of(base);
    let q = chars_of(p);
    if q.len() > 0 && q[0] == '/' {
        return p.to_owned();
    }
    let mut r = base.to_owned();
    if b.len() > 0 && b[b.len() - 1] != '/' {
        r.push('/');
    }
    r.append(p);
    r
}

/// The path with its file name replaced by `name`; where there is no file name,
/// `name` is joined to the path.
pub open spec fn with_file_name_spec(s: Seq<char>, name: Seq<char>) -> Seq<char> {
    match (file_name_spec(s), parent_spec(s)) {
        (Some(_), Some(base)) => join_path_spec(base, name),
        _ => join_path_spec(s, name),
    }
}

/// The path with its file name replaced by `name`.
pub fn with_file_name(path: &str, name: &str) -> (r: String)
    ensures
        r@ == with_file_name_spec(path@, name@),
{
    match file_name(path) {
        Some(_) => match parent(path) {
            Some(base) => join_path(base.as_str(), name),
            None => join_path(path, name),
        },
        None => join_path(path, name),
    }
}

/// The position of the last dot of `t`, or -1.
pub open spec fn last_dot(t: Seq<char>) -> int
    decreases t.len(),
{
    if t.len() == 0 {
        -1
    } else if t.last() == '.' {
        t.len() - 1
    } else {
        last_dot(t.drop_last())
    }
}

/// What follows the last dot of the file name, unless that dot is its first
/// character.
pub open spec fn extension_spec(s: Seq<char>) -> Option<Seq<char>> {
    match file_name_spec(s) {
        Some(name) => if last_dot(name) > 0 {
            Some(name.skip(last_dot(name) + 1))
        } else {
            None
        },
        None => None,
    }
}

/// The extension of the path's file name.
pub fn extension(path: &str) -> (r: Option<String>)
    ensures
        crate::text::opt_text(r) == extension_spec(path@),
{
    let name = match file_name(path) {
        Some(n) => n,
        None => return None,
    };
    let v = chars_of(name.as_str());
    let mut at: usize = v.len();
    assert(v@.take(at as int) =~= v@);
    while at > 0 && v[at - 1] != '.'
        invariant
            at <= v.len(),
            last_dot(v@.take(at as int)) == last_dot(v@),
        decreases at,
    {
        assert(v@.take(at as int).drop_last() =~= v@.take(at - 1));
        at = at - 1;
    }
    assert(at > 0 ==> v@.take(at as int).last() == v@[at - 1]);
    if at <= 1 {
        return None;
    }
    let r = string_of(&v, at, v.len());
    assert(r@ =~= v@.skip(at as int));
    Some(r)
}

// ---------------------------------------------------------------------------
// Prefixes
// ---------------------------------------------------------------------------

/// Whether the components of `root` are the first components of `path`.
pub open spec fn below(path: Seq<char>, root: Seq<char>) -> bool {
    let p = path_spans(path);
    let r = path_spans(root);
    &&& is_absolute(root) ==> is_absolute(path)
    &&& r.len() > 0 && !is_absolute(root) ==> !is_absolute(path)
    &&& r.len() <= p.len()
    &&& forall|i: int|
        0 <= i < r.len() ==> span_text(path, #[trigger] p[i]) == span_text(root, r[i])
}

/// What is left of `path` behind the components of `root`, where they are its
/// first components.
pub open spec fn strip_prefix_spec(path: Seq<char>, root: Seq<char>) -> Option<Seq<char>> {
    let p = path_spans(path);
    let r = path_spans(root);
    if !below(path, root) {
        None
    } else if r.len() == 0 && !is_absolute(root) {
        // The empty path: all of `path`, without what follows its last component.
        Some(
            path.take(
                if p.len() > 0 {
                    p.last().1
                } else if is_absolute(path) {
                    1
                } else {
                    0
                },
            ),
        )
    } else if r.len() == p.len() {
        Some(Seq::empty())
    } else {
        Some(path.subrange(p[r.len() as int].0, p.last().1))
    }
}

/// What is left of `path` behind the components of `root`.
pub fn strip_prefix(path: &str, root: &str) -> (res: Option<String>)
    ensures
        crate::text::opt_text(res) == strip_prefix_spec(path@, root@),
{
    let a = chars_of(path);
    let b = chars_of(root);
    let p = component_spans(&a);
    let r = component_spans(&b);
    let ghost gp = path_spans(path@);
    let ghost gr = path_spans(root@);
    assert(gp.len() == p.len() && gr.len() == r.len());
    assert forall|i: int| 0 <= i < p.len() implies gp[i] == (p@[i].0 as int, p@[i].1 as int) by {
        assert(span_pairs(p@)[i] == gp[i]);
    }
    assert forall|i: int| 0 <= i < r.len() implies gr[i] == (r@[i].0 as int, r@[i].1 as int) by {
        assert(span_pairs(r@)[i] == gr[i]);
    }
    let path_abs = a.len() > 0 && a[0] == '/';
    let root_abs = b.len() > 0 && b[0] == '/';
    if root_abs && !path_abs {
        return None;
    }
    if r.len() > 0 && !root_abs && path_abs {
        return None;
    }
    if r.len() > p.len() {
        return None;
    }
    for i in 0..r.len()
        invariant
            a@ == path@,
            b@ == root@,
            r.len() <= p.len(),
            gp == path_spans(path@),
            gr == path_spans(root@),
            gp.len() == p.len() && gr.len() == r.len(),
            forall|j: int| 0 <= j < p.len() ==> #[trigger] gp[j] == (p@[j].0 as int, p@[j].1 as int),
            forall|j: int| 0 <= j < r.len() ==> #[trigger] gr[j] == (r@[j].0 as int, r@[j].1 as int),
            forall|j: int| 0 <= j < p.len() ==> (#[trigger] p@[j]).0 < p@[j].1 <= a.len(),
            forall|j: int| 0 <= j < r.len() ==> (#[trigger] r@[j]).0 < r@[j].1 <= b.len(),
            forall|j: int|
                0 <= j < i ==> span_text(path@, #[trigger] gp[j]) == span_text(root@, gr[j]),
    {
        let x = string_of(&a, p[i].0, p[i].1);
        let y = string_of(&b, r[i].0, r[i].1);
        if !same_text(x.as_str(), y.as_str()) {
            assert(span_text(path@, gp[i as int]) != span_text(root@, gr[i as int]));
            return None;
        }
    }
    if r.len() == 0 && !root_abs {
        let keep: usize = if p.len() > 0 {
            p[p.len() - 1].1
        } else if path_abs {
            1
        } else {
            0
        };
        let t = string_of(&a, 0, keep);
        assert(t@ =~= path@.take(keep as int));
        return Some(t);
    }
    if r.len() == p.len() {
        return Some(String::new());
    }
    let from: usize = p[r.len()].0;
    let to: usize = p[p.len() - 1].1;
    assert(from <= to) by {
        assert(p@[r.len() as int].0 < p@[r.len() as int].1);
    }
    Some(string_of(&a, from, to))
}

// ---------------------------------------------------------------------------
// Order
// ---------------------------------------------------------------------------

/// The numbers by which a text is ordered, closed by a zero that no character
/// yields.
pub open spec fn text_key(t: Seq<char>) -> Seq<u64> {
    Seq::new(t.len(), |i: int| (t[i] as u64 + 1) as u64).push(0)
}

/// The numbers by which a component is ordered: `.` before `..` before ordinary
/// names, and names by their characters.
pub open spec fn component_key(t: Seq<char>) -> Seq<u64> {
    if t == seq!['.'] {
        seq![2u64, 0u64]
    } else if t == seq!['.', '.'] {
        seq![3u64, 0u64]
    } else {
        seq![4u64] + text_key(t)
    }
}

/// The keys of the first `n` components, one after the other.
pub open spec fn components_key(s: Seq<char>, n: int) -> Seq<u64>
    decreases n,
{
    if n <= 0 {
        Seq::empty()
    } else {
        components_key(s, n - 1) + component_key(span_text(s, path_spans(s)[n - 1]))
    }
}

/// The numbers by which a path is ordered: component by component, the root
/// before everything else.
pub open spec fn path_key(s: Seq<char>) -> Seq<u64> {
    (if is_absolute(s) {
        seq![1u64, 0u64]
    } else {
        Seq::<u64>::empty()
    }) + components_key(s, path_spans(s).len() as int)
}

fn code_plus_one(c: char) -> (n: u64)
    ensures
        n == (c as u64 + 1) as u64,
{
    c as u64 + 1
}

/// Appends the key of the characters `v[from..to]` to `key`.
pub fn push_text_key(key: &mut Vec<u64>, v: &Vec<char>, from: usize, to: usize)
    requires
        from <= to <= v.len(),
    ensures
        final(key)@ == old(key)@ + text_key(v@.subrange(from as int, to as int)),
{
    let ghost start = key@;
    let ghost t = v@.subrange(from as int, to as int);
    for i in from..to
        invariant
            from <= i <= to <= v.len(),
            t == v@.subrange(from as int, to as int),
            key@ == start + Seq::new((i - from) as nat, |k: int| (t[k] as u64 + 1) as u64),
    {
        let ghost before = key@;
        key.push(code_plus_one(v[i]));
        assert(v@[i as int] == t[i - from]);
        assert(key@ =~= start + Seq::new((i + 1 - from) as nat, |k: int| (t[k] as u64 + 1) as u64));
    }
    key.push(0);
    assert(key@ =~= start + text_key(t));
}

/// The numbers by which a path is ordered.
pub fn path_sort_key(path: &str) -> (key: Vec<u64>)
    ensures
        key@ == path_key(path@),
{
    let v = chars_of(path);
    let p = component_spans(&v);
    let ghost g = path_spans(path@);
    assert(g.len() == p.len());
    let mut key: Vec<u64> = Vec::new();
    if v.len() > 0 && v[0] == '/' {
        key.push(1);
        key.push(0);
    }
    let ghost head = key@;
    assert(head =~= (if is_absolute(path@) {
        seq![1u64, 0u64]
    } else {
        Seq::<u64>::empty()
    }));
    for i in 0..p.len()
        invariant
            v@ == path@,
            g == path_spans(path@),
            g == span_pairs(p@),
            g.len() == p.len(),
            forall|j: int| 0 <= j < p.len() ==> (#[trigger] p@[j]).0 < p@[j].1 <= v.len(),
            key@ == head + components_key(path@, i as int),
    {
        let from: usize = p[i].0;
        let to: usize = p[i].1;
        let ghost t = span_text(path@, g[i as int]);
        assert(t == v@.subrange(from as int, to as int));
        let ghost before = key@;
        if to - from == 1 && v[from] == '.' {
            assert(t =~= seq!['.']);
            key.push(2);
            key.push(0);
            assert(key@ =~= before + seq![2u64, 0u64]);
        } else if to - from == 2 && v[from] == '.' && v[from + 1] == '.' {
            assert(t =~= seq!['.', '.']);
            key.push(3);
            key.push(0);
            assert(key@ =~= before + seq![3u64, 0u64]);
        } else {
            proof {
                if t == seq!['.'] {
                    assert(t[0] == '.' && t.len() == 1);
                }
                if t == seq!['.', '.'] {
                    assert(t[0] == '.' && t[1] == '.' && t.len() == 2);
                }
            }
            key.push(4);
            push_text_key(&mut key, &v, from, to);
            assert(key@ =~= before + (seq![4u64] + text_key(t)));
        }
        assert(key@ =~= head + (components_key(path@, i as int) + component_key(t)));
    }
    key
}

// ---------------------------------------------------------------------------
// Paths that name the same file
// ---------------------------------------------------------------------------

/// The components of the path, in order.
pub open spec fn components(s: Seq<char>) -> Seq<Seq<char>> {
    path_spans(s).map_values(|span: (int, int)| span_text(s, span))
}

/// The plain form of the path: its components with one slash between neighbours,
/// behind a slash where it starts at the root. Paths with the same components
/// have the same plain form.
pub open spec fn plain_path_spec(s: Seq<char>) -> Seq<char> {
    (if is_absolute(s) {
        seq!['/']
    } else {
        Seq::<char>::empty()
    }) + join_spec(components(s), seq!['/'])
}

/// The plain form of the path.
pub fn plain_path(path: &str) -> (r: String)
    ensures
        r@ == plain_path_spec(path@),
{
    let v = chars_of(path);
    let p = component_spans(&v);
    let ghost g = path_spans(path@);
    let mut pieces: Vec<String> = Vec::new();
    for i in 0..p.len()
        invariant
            v@ == path@,
            g == span_pairs(p@),
            pieces.len() == i,
            forall|j: int| 0 <= j < p.len() ==> (#[trigger] p@[j]).0 < p@[j].1 <= v.len(),
            forall|j: int| 0 <= j < i ==> (#[trigger] pieces@[j])@ == span_text(path@, g[j]),
    {
        pieces.push(string_of(&v, p[i].0, p[i].1));
    }
    let names = join(&pieces, 0, pieces.len(), "/");
    proof {
        reveal_strlit("/");
        assert("/"@ =~= seq!['/']);
        assert(g.len() == p.len());
        assert(texts(pieces@).subrange(0, pieces@.len() as int) =~= components(path@));
    }
    if v.len() > 0 && v[0] == '/' {
        concat("/", names.as_str())
    } else {
        assert(Seq::<char>::empty() + names@ =~= names@);
        names
    }
}

/// Whether the text can be a component at all.
spec fn is_name(t: Seq<char>) -> bool {
    t.len() > 0 && !t.contains('/')
}

/// Whether every text of the list can be a component, and only the first one can
/// be `.`, and that only where `first` holds.
spec fn are_names(cs: Seq<Seq<char>>, first: bool) -> bool {
    &&& forall|i: int| 0 <= i < cs.len() ==> is_name(#[trigger] cs[i])
    &&& forall|i: int|
        0 <= i < cs.len() && (#[trigger] cs[i]).len() == 1 && cs[i][0] == '.' ==> i == 0 && first
}

proof fn lemma_spans_are_names(s: Seq<char>, at: int)
    requires
        0 <= at <= s.len() + 1,
    ensures
        are_names(spans(s, at).map_values(|span: (int, int)| span_text(s, span)), at == 0),
    decreases s.len() - at + 1,
{
    let f = |span: (int, int)| span_text(s, span);
    if at < s.len() {
        lemma_find_char(s.skip(at), '/');
        let end = at + find_char(s.skip(at), '/');
        lemma_spans_are_names(s, end + 1);
        let rest = spans(s, end + 1).map_values(f);
        let all = spans(s, at).map_values(f);
        if names_component(s, at, end) {
            let t = s.subrange(at, end);
            assert(all =~= seq![t] + rest);
            assert forall|i: int| 0 <= i < t.len() implies t[i] != '/' by {
                assert(t[i] == s.skip(at)[i]);
            }
            assert(is_name(t));
            assert forall|i: int| 0 <= i < all.len() implies is_name(#[trigger] all[i]) by {
                if i > 0 {
                    assert(all[i] == rest[i - 1]);
                }
            }
            assert forall|i: int|
                0 <= i < all.len() && (#[trigger] all[i]).len() == 1 && all[i][0] == '.' implies i
                == 0 && at == 0 by {
                if i > 0 {
                    assert(all[i] == rest[i - 1]);
                }
            }
        } else {
            assert(all =~= rest);
            assert forall|i: int|
                0 <= i < all.len() && (#[trigger] all[i]).len() == 1 && all[i][0] == '.' implies i
                == 0 && at == 0 by {
                assert(all[i] == rest[i]);
            }
        }
    }
}

proof fn lemma_components_are_names(s: Seq<char>)
    ensures
        are_names(components(s), !is_absolute(s)),
{
    lemma_spans_are_names(s, 0);
    if is_absolute(s) {
        lemma_find_char_at(s.skip(0), '/', 0);
        lemma_spans_are_names(s, 1);
        assert(path_spans(s) == spans(s, 1));
    }
}

proof fn lemma_join_front(cs: Seq<Seq<char>>, sep: Seq<char>)
    requires
        cs.len() > 1,
    ensures
        join_spec(cs, sep) == cs[0] + sep + join_spec(cs.skip(1), sep),
    decreases cs.len(),
{
    let head = cs.drop_last();
    if head.len() == 1 {
        assert(cs.skip(1) =~= seq![cs[1]]);
        assert(join_spec(cs.skip(1), sep) == cs[1]);
        assert(join_spec(head, sep) == cs[0]);
    } else {
        lemma_join_front(head, sep);
        assert(head.skip(1) =~= cs.skip(1).drop_last());
        assert(cs.skip(1).last() == cs.last());
        assert(join_spec(cs, sep) =~= cs[0] + sep + join_spec(cs.skip(1), sep));
    }
}

/// Joined names are the components of the text they are joined to.
proof fn lemma_spans_of_joined(t: Seq<char>, at: int, cs: Seq<Seq<char>>)
    requires
        0 <= at <= t.len(),
        t.skip(at) == join_spec(cs, seq!['/']),
        are_names(cs, at == 0),
    ensures
        spans(t, at).map_values(|span: (int, int)| span_text(t, span)) == cs,
    decreases cs.len(),
{
    let f = |span: (int, int)| span_text(t, span);
    let tail = t.skip(at);
    if cs.len() == 0 {
        assert(tail.len() == 0);
        assert(spans(t, at).map_values(f) =~= cs);
    } else {
        let c = cs[0];
        let rest = cs.skip(1);
        assert(is_name(c));
        let joined = join_spec(rest, seq!['/']);
        if cs.len() > 1 {
            lemma_join_front(cs, seq!['/']);
        }
        assert forall|i: int| 0 <= i < c.len() implies tail[i] == c[i] && tail[i] != '/' by {
            assert(c.contains(c[i]));
        }
        if cs.len() > 1 {
            assert(tail[c.len() as int] == '/');
        }
        lemma_find_char_at(tail, '/', c.len() as int);
        let end = at + c.len();
        assert(t.subrange(at, end) =~= c) by {
            assert forall|i: int| 0 <= i < c.len() implies t.subrange(at, end)[i] == c[i] by {
                assert(tail[i] == t[at + i]);
            }
        }
        assert(tail[0] == t[at]);
        assert(names_component(t, at, end));
        assert(spans(t, at) == seq![(at, end)] + spans(t, end + 1));
        if cs.len() > 1 {
            assert(t.skip(end + 1) =~= joined) by {
                assert forall|i: int| 0 <= i < joined.len() implies t.skip(end + 1)[i]
                    == joined[i] by {
                    assert(tail[c.len() + 1 + i] == joined[i]);
                    assert(tail[c.len() + 1 + i] == t[at + c.len() + 1 + i]);
                }
                assert(tail.len() == c.len() + 1 + joined.len());
            }
            assert(are_names(rest, false)) by {
                assert forall|i: int| 0 <= i < rest.len() implies is_name(#[trigger] rest[i]) by {
                    assert(rest[i] == cs[i + 1]);
                }
                assert forall|i: int|
                    0 <= i < rest.len() && (#[trigger] rest[i]).len() == 1 && rest[i][0]
                        == '.' implies false by {
                    assert(rest[i] == cs[i + 1]);
                }
            }
            lemma_spans_of_joined(t, end + 1, rest);
        } else {
            assert(rest =~= Seq::empty());
            assert(spans(t, end + 1) =~= Seq::empty());
        }
        assert(spans(t, at).map_values(f) =~= seq![c] + spans(t, end + 1).map_values(f));
        assert(cs =~= seq![c] + rest);
    }
}

/// The plain form of a path has the path's components and starts at the root
/// where the path does.
pub proof fn plain_path_keeps_components(s: Seq<char>)
    ensures
        components(plain_path_spec(s)) == components(s),
        is_absolute(plain_path_spec(s)) == is_absolute(s),
        plain_path_spec(plain_path_spec(s)) == plain_path_spec(s),
{
    let t = plain_path_spec(s);
    let cs = components(s);
    let joined = join_spec(cs, seq!['/']);
    lemma_components_are_names(s);
    if is_absolute(s) {
        assert(t[0] == '/');
        lemma_find_char_at(t.skip(0), '/', 0);
        assert(path_spans(t) == spans(t, 1));
        assert(t.skip(1) =~= joined);
        lemma_spans_of_joined(t, 1, cs);
    } else {
        assert(t =~= joined);
        assert(t.skip(0) =~= joined);
        lemma_spans_of_joined(t, 0, cs);
        if cs.len() > 0 {
            if cs.len() > 1 {
                lemma_join_front(cs, seq!['/']);
            }
            assert(is_name(cs[0]));
            assert(t[0] == cs[0][0]);
            assert(cs[0].contains(cs[0][0]));
        }
    }
}

proof fn lemma_components_key(a: Seq<char>, b: Seq<char>, n: int)
    requires
        components(a) == components(b),
        0 <= n <= components(a).len(),
    ensures
        components_key(a, n) == components_key(b, n),
    decreases n,
{
    if n > 0 {
        lemma_components_key(a, b, n - 1);
        assert(components(a)[n - 1] == span_text(a, path_spans(a)[n - 1]));
        assert(components(b)[n - 1] == span_text(b, path_spans(b)[n - 1]));
    }
}

/// Whether the numbers end with a zero and hold no other one.
spec fn is_block(k: Seq<u64>) -> bool {
    &&& k.len() > 0
    &&& k.last() == 0
    &&& forall|i: int| 0 <= i < k.len() - 1 ==> #[trigger] k[i] != 0
}

proof fn lemma_code_plus_one(c: char)
    ensures
        (c as u64 + 1) as u64 == c as int + 1,
        c as int >= 0,
{
}

proof fn lemma_component_key_is_block(t: Seq<char>)
    ensures
        is_block(component_key(t)),
        2 <= component_key(t)[0] <= 4,
{
    let k = component_key(t);
    if t == seq!['.'] || t == seq!['.', '.'] {
    } else {
        let chars = text_key(t);
        assert forall|i: int| 0 <= i < k.len() - 1 implies #[trigger] k[i] != 0 by {
            if i > 0 {
                assert(k[i] == chars[i - 1]);
                lemma_code_plus_one(t[i - 1]);
            }
        }
    }
}

proof fn lemma_component_key_decides(a: Seq<char>, b: Seq<char>)
    requires
        component_key(a) == component_key(b),
    ensures
        a == b,
{
    let k = component_key(a);
    if k[0] == 4 {
        let x = text_key(a);
        let y = text_key(b);
        assert(x =~= k.skip(1));
        assert(y =~= k.skip(1));
        assert(x.len() == a.len() + 1 && y.len() == b.len() + 1);
        assert forall|i: int| 0 <= i < a.len() implies a[i] == b[i] by {
            lemma_code_plus_one(a[i]);
            lemma_code_plus_one(b[i]);
            assert(x[i] == y[i]);
        }
        assert(a =~= b);
    }
}

proof fn lemma_last_block(a: Seq<u64>, x: Seq<u64>, b: Seq<u64>, y: Seq<u64>)
    requires
        a + x == b + y,
        is_block(x),
        is_block(y),
        a.len() > 0 ==> a.last() == 0,
        b.len() > 0 ==> b.last() == 0,
    ensures
        a == b,
        x == y,
{
    let all = a + x;
    assert(all == b + y);
    assert(all.len() == a.len() + x.len());
    assert((b + y).len() == b.len() + y.len());
    if x.len() < y.len() {
        // The end of `a` would stand inside `y`.
        assert(a.len() > b.len());
        assert(all[a.len() - 1] == a.last());
        assert((b + y)[a.len() - 1] == y[a.len() - 1 - b.len()]);
    }
    if y.len() < x.len() {
        assert(b.len() > a.len());
        assert((b + y)[b.len() - 1] == b.last());
        assert(all[b.len() - 1] == x[b.len() - 1 - a.len()]);
    }
    assert(a =~= all.take(a.len() as int));
    assert(b =~= all.take(a.len() as int));
    assert(x =~= all.skip(a.len() as int));
    assert(y =~= all.skip(a.len() as int));
}

proof fn lemma_components_key_ends(s: Seq<char>, n: int)
    ensures
        n > 0 ==> components_key(s, n).len() > 0 && components_key(s, n).last() == 0,
        n <= 0 ==> components_key(s, n).len() == 0,
{
    if n > 0 {
        lemma_component_key_is_block(span_text(s, path_spans(s)[n - 1]));
    }
}

proof fn lemma_components_key_starts(s: Seq<char>, n: int)
    ensures
        components_key(s, n).len() > 0 ==> components_key(s, n)[0] >= 2,
    decreases n,
{
    if n > 0 {
        lemma_components_key_starts(s, n - 1);
        lemma_component_key_is_block(span_text(s, path_spans(s)[n - 1]));
    }
}

proof fn lemma_components_key_decides(a: Seq<char>, n: int, b: Seq<char>, m: int)
    requires
        0 <= n <= components(a).len(),
        0 <= m <= components(b).len(),
        components_key(a, n) == components_key(b, m),
    ensures
        n == m,
        components(a).take(n) == components(b).take(m),
    decreases n,
{
    lemma_components_key_ends(a, n);
    lemma_components_key_ends(b, m);
    if n > 0 && m > 0 {
        let x = span_text(a, path_spans(a)[n - 1]);
        let y = span_text(b, path_spans(b)[m - 1]);
        lemma_component_key_is_block(x);
        lemma_component_key_is_block(y);
        lemma_components_key_ends(a, n - 1);
        lemma_components_key_ends(b, m - 1);
        lemma_last_block(
            components_key(a, n - 1),
            component_key(x),
            components_key(b, m - 1),
            component_key(y),
        );
        lemma_component_key_decides(x, y);
        lemma_components_key_decides(a, n - 1, b, m - 1);
        assert(components(a).take(n) =~= components(a).take(n - 1).push(x));
        assert(components(b).take(m) =~= components(b).take(m - 1).push(y));
    } else {
        assert(components(a).take(n) =~= components(b).take(m));
    }
}

/// Two paths have the same plain form exactly where they compare as equal,
/// component by component.
pub proof fn plain_paths_tell_paths_apart(a: Seq<char>, b: Seq<char>)
    ensures
        (plain_path_spec(a) == plain_path_spec(b)) == (path_key(a) == path_key(b)),
{
    let n = path_spans(a).len() as int;
    let m = path_spans(b).len() as int;
    assert(components(a).len() == n && components(b).len() == m);
    if plain_path_spec(a) == plain_path_spec(b) {
        plain_path_keeps_components(a);
        plain_path_keeps_components(b);
        lemma_components_key(a, b, n);
    }
    if path_key(a) == path_key(b) {
        let x = components_key(a, n);
        let y = components_key(b, m);
        lemma_components_key_starts(a, n);
        lemma_components_key_starts(b, m);
        if is_absolute(a) {
            assert(path_key(a)[0] == 1);
            assert(is_absolute(b)) by {
                if !is_absolute(b) {
                    assert(path_key(b) =~= y);
                }
            }
            assert(x =~= path_key(a).skip(2));
            assert(y =~= path_key(b).skip(2));
        } else {
            assert(path_key(a) =~= x);
            if is_absolute(b) {
                assert(path_key(b)[0] == 1);
            }
            assert(path_key(b) =~= y);
        }
        lemma_components_key_decides(a, n, b, m);
        assert(components(a).take(n) =~= components(a));
        assert(components(b).take(m) =~= components(b));
    }
}

} // verus!
