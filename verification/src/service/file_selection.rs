//! Which files a reindex works on.
use crate::engine::registry::IndexHandle;
use crate::paths::{
    extension, extension_spec, path_key, path_sort_key, plain_path_spec, plain_paths_tell_paths_apart,
};
use crate::sorting::{
    is_order, key_le, lex_le, lex_le_antisymmetric, lex_le_transitive, lists, precedes, sort_order,
};
use crate::text::{copy_texts, eq_ignore_ascii_case, same_ignoring_ascii_case, texts};
use vstd::prelude::*;

verus! {

/// The subtrees to walk: those that the handle lists, or its whole root.
pub fn walk_roots(handle: &IndexHandle) -> (roots: Vec<String>)
    ensures
        texts(roots@) == (if handle.include_paths@.len() == 0 {
            seq![handle.root_path@]
        } else {
            texts(handle.include_paths@)
        }),
{
    if handle.include_paths.len() == 0 {
        let mut roots: Vec<String> = Vec::new();
        roots.push(handle.root_path.clone());
        assert(texts(roots@) =~= seq![handle.root_path@]);
        roots
    } else {
        copy_texts(&handle.include_paths)
    }
}

/// A file that the walk found.
pub struct WalkedFile {
    pub path: String,
    /// Whether one of the handle's exclusion patterns matches the path.
    pub excluded: bool,
}

/// Whether the path's extension is on the list, in any ASCII case.
pub open spec fn has_allowed_extension(path: Seq<char>, allowed: Seq<String>) -> bool {
    extension_spec(path) matches Some(e) && exists|i: int|
        0 <= i < allowed.len() && same_ignoring_ascii_case((#[trigger] allowed[i])@, e)
}

/// Whether the handle's filters let the file through.
pub open spec fn passes_filters(f: WalkedFile, handle: IndexHandle) -> bool {
    &&& !(handle.exclude_globs@.len() > 0 && f.excluded)
    &&& handle.extensions@.len() == 0 || has_allowed_extension(f.path@, handle.extensions@)
}

fn allowed_extension(path: &str, allowed: &Vec<String>) -> (r: bool)
    ensures
        r == has_allowed_extension(path@, allowed@),
{
    let e = match extension(path) {
        Some(e) => e,
        None => return false,
    };
    for i in 0..allowed.len()
        invariant
            extension_spec(path@) == Some(e@),
            forall|j: int|
                0 <= j < i ==> !same_ignoring_ascii_case((#[trigger] allowed@[j])@, e@),
    {
        if eq_ignore_ascii_case(allowed[i].as_str(), e.as_str()) {
            return true;
        }
    }
    false
}

fn passes(f: &WalkedFile, handle: &IndexHandle) -> (r: bool)
    ensures
        r == passes_filters(*f, *handle),
{
    if handle.exclude_globs.len() > 0 && f.excluded {
        return false;
    }
    handle.extensions.len() == 0 || allowed_extension(f.path.as_str(), &handle.extensions)
}

/// Whether the `k`-th walked file passes and no earlier one names the same path.
pub open spec fn first_of_its_path(walked: Seq<WalkedFile>, handle: IndexHandle, k: int) -> bool {
    &&& 0 <= k < walked.len()
    &&& passes_filters(walked[k], handle)
    &&& forall|j: int|
        0 <= j < k && passes_filters(#[trigger] walked[j], handle) ==> path_key(walked[j].path@)
            != path_key(walked[k].path@)
}

/// Whether `file` is the path of the first walked file that names it.
pub open spec fn is_first_naming(
    walked: Seq<WalkedFile>,
    handle: IndexHandle,
    file: Seq<char>,
) -> bool {
    exists|k: int| #[trigger]
        first_of_its_path(walked, handle, k) && walked[k].path@ == file
}

/// Whether `files` lists a path that is, component by component, the path of
/// `w`.
pub open spec fn lists_path(files: Seq<String>, w: Seq<char>) -> bool {
    exists|i: int| 0 <= i < files.len() && path_key((#[trigger] files[i])@) == path_key(w)
}

/// Whether `files` are the walked files that pass the filters: in the order of
/// their paths, and each path once.
pub open spec fn is_selection(
    walked: Seq<WalkedFile>,
    handle: IndexHandle,
    files: Seq<String>,
) -> bool {
    &&& forall|i: int|
        0 <= i < files.len() ==> is_first_naming(walked, handle, (#[trigger] files[i])@)
    &&& forall|i: int, j: int|
        0 <= i < j < files.len() ==> lex_le(
            path_key((#[trigger] files[i])@),
            path_key((#[trigger] files[j])@),
        ) && path_key(files[i]@) != path_key(files[j]@)
    &&& forall|k: int|
        0 <= k < walked.len() && passes_filters(#[trigger] walked[k], handle) ==> lists_path(
            files,
            walked[k].path@,
        )
}

/// The files to index out of all that were walked: those that pass the handle's
/// filters, sorted by path, each path once.
pub fn select_files(walked: &Vec<WalkedFile>, handle: &IndexHandle) -> (files: Vec<String>)
    ensures
        is_selection(walked@, *handle, files@),
{
    let mut kept: Vec<usize> = Vec::new();
    let mut keys: Vec<Vec<u64>> = Vec::new();
    for i in 0..walked.len()
        invariant
            kept.len() == keys.len(),
            forall|j: int|
                0 <= j < kept.len() ==> (#[trigger] kept@[j]) < i && passes_filters(
                    walked@[kept@[j] as int],
                    *handle,
                ) && keys@[j]@ == path_key(walked@[kept@[j] as int].path@),
            forall|j: int, k: int|
                0 <= j < k < kept.len() ==> (#[trigger] kept@[j]) < (#[trigger] kept@[k]),
            forall|v: int|
                0 <= v < i && passes_filters(#[trigger] walked@[v], *handle) ==> lists(kept@, v),
    {
        let ghost before = kept@;
        if passes(&walked[i], handle) {
            kept.push(i);
            keys.push(path_sort_key(walked[i].path.as_str()));
            assert(kept@[before.len() as int] == i);
        }
        proof {
            assert forall|v: int|
                0 <= v < i + 1 && passes_filters(#[trigger] walked@[v], *handle) implies lists(
                kept@,
                v,
            ) by {
                if v < i {
                    assert(lists(before, v));
                    let a = choose|a: int| 0 <= a < before.len() && #[trigger] before[a] == v;
                    assert(kept@[a] == v);
                }
            }
        }
    }
    let order = sort_order(&keys);
    let mut files: Vec<String> = Vec::new();
    let mut chosen: Vec<usize> = Vec::new();
    for i in 0..order.len()
        invariant
            is_order(keys@, order@, 0, keys.len() as int),
            kept.len() == keys.len(),
            forall|j: int|
                0 <= j < kept.len() ==> (#[trigger] kept@[j]) < walked.len() && passes_filters(
                    walked@[kept@[j] as int],
                    *handle,
                ) && keys@[j]@ == path_key(walked@[kept@[j] as int].path@),
            forall|j: int, k: int|
                0 <= j < k < kept.len() ==> (#[trigger] kept@[j]) < (#[trigger] kept@[k]),
            files.len() == chosen.len(),
            (i > 0) == (chosen.len() > 0),
            i > 0 ==> keys@[chosen@[chosen.len() - 1] as int]@ == keys@[order@[i - 1] as int]@,
            forall|a: int|
                0 <= a < chosen.len() ==> (#[trigger] chosen@[a]) < keys.len() && files@[a]@
                    == walked@[kept@[chosen@[a] as int] as int].path@,
            forall|a: int, b: int|
                0 <= a < chosen.len() && 0 <= b < keys.len() && keys@[(#[trigger] chosen@[a]) as int]@
                    == (#[trigger] keys@[b])@ ==> chosen@[a] <= b,
            forall|a: int, b: int|
                0 <= a < b < chosen.len() ==> lex_le(
                    keys@[(#[trigger] chosen@[a]) as int]@,
                    keys@[(#[trigger] chosen@[b]) as int]@,
                ) && keys@[chosen@[a] as int]@ != keys@[chosen@[b] as int]@,
            forall|b: int|
                0 <= b < i ==> exists|a: int|
                    0 <= a < chosen.len() && keys@[(#[trigger] chosen@[a]) as int]@ == keys@[(
                    #[trigger] order@[b]) as int]@,
    {
        let x: usize = order[i];
        let fresh = if chosen.len() == 0 {
            true
        } else {
            !key_le(&keys[x], &keys[chosen[chosen.len() - 1]])
        };
        let ghost before = chosen@;
        proof {
            if i > 0 {
                assert(precedes(keys@, order@[i - 1] as int, order@[i as int] as int));
                assert(lex_le(keys@[order@[i - 1] as int]@, keys@[x as int]@));
                if !fresh {
                    lex_le_antisymmetric(keys@[order@[i - 1] as int]@, keys@[x as int]@);
                }
            }
        }
        if fresh {
            proof {
                // No slot with the key of `x` comes before `x`.
                assert forall|b: int|
                    0 <= b < keys.len() && keys@[x as int]@ == (#[trigger] keys@[b])@ implies x
                    <= b by {
                    assert(lists(order@, b));
                    let p = choose|p: int| 0 <= p < order.len() && #[trigger] order@[p] == b;
                    if p > i {
                        assert(precedes(keys@, order@[i as int] as int, order@[p] as int));
                    } else if p < i {
                        if p < i - 1 {
                            assert(precedes(keys@, order@[p] as int, order@[i - 1] as int));
                        }
                        assert(lex_le(keys@[b]@, keys@[order@[i - 1] as int]@));
                    }
                }
                // Every chosen key comes strictly before the key of `x`.
                assert forall|a: int| 0 <= a < before.len() implies lex_le(
                    keys@[(#[trigger] before[a]) as int]@,
                    keys@[x as int]@,
                ) && keys@[before[a] as int]@ != keys@[x as int]@ by {
                    let last = before[before.len() - 1] as int;
                    if a < before.len() - 1 {
                        assert(lex_le(keys@[before[a] as int]@, keys@[last]@));
                        lex_le_transitive(
                            keys@[before[a] as int]@,
                            keys@[last]@,
                            keys@[x as int]@,
                        );
                    }
                    if keys@[before[a] as int]@ == keys@[x as int]@ {
                        assert(lex_le(keys@[x as int]@, keys@[last]@));
                    }
                }
            }
            files.push(walked[kept[x]].path.clone());
            chosen.push(x);
            assert(chosen@[before.len() as int] == x);
        }
        proof {
            assert forall|b: int| 0 <= b < i + 1 implies exists|a: int|
                0 <= a < chosen.len() && keys@[(#[trigger] chosen@[a]) as int]@ == keys@[(
                #[trigger] order@[b]) as int]@ by {
                if b < i {
                    let a = choose|a: int|
                        0 <= a < before.len() && keys@[(#[trigger] before[a]) as int]@
                            == keys@[order@[b] as int]@;
                    assert(chosen@[a] == before[a]);
                } else {
                    let last = chosen.len() - 1;
                    assert(keys@[chosen@[last] as int]@ == keys@[order@[b] as int]@);
                }
            }
        }
    }
    proof {
        assert forall|i: int| 0 <= i < files.len() implies is_first_naming(
            walked@,
            *handle,
            (#[trigger] files@[i])@,
        ) by {
            let c = chosen@[i] as int;
            let k = kept@[c] as int;
            assert forall|j: int|
                0 <= j < k && passes_filters(#[trigger] walked@[j], *handle) implies path_key(
                walked@[j].path@,
            ) != path_key(walked@[k].path@) by {
                assert(lists(kept@, j));
                let b = choose|b: int| 0 <= b < kept.len() && #[trigger] kept@[b] == j;
                if path_key(walked@[j].path@) == path_key(walked@[k].path@) {
                    assert(keys@[chosen@[i] as int]@ == keys@[b]@);
                    assert(c <= b);
                }
            }
            assert(first_of_its_path(walked@, *handle, k));
        }
        assert forall|i: int, j: int| 0 <= i < j < files.len() implies lex_le(
            path_key((#[trigger] files@[i])@),
            path_key((#[trigger] files@[j])@),
        ) && path_key(files@[i]@) != path_key(files@[j]@) by {
            assert(keys@[chosen@[i] as int]@ != keys@[chosen@[j] as int]@);
        }
        assert forall|k: int|
            0 <= k < walked.len() && passes_filters(#[trigger] walked@[k], *handle) implies lists_path(
        files@, walked@[k].path@) by {
            assert(lists(kept@, k));
            let b = choose|b: int| 0 <= b < kept.len() && #[trigger] kept@[b] == k;
            assert(lists(order@, b));
            let p = choose|p: int| 0 <= p < order.len() && #[trigger] order@[p] == b;
            assert(order@[p] == b);
            let a = choose|a: int|
                0 <= a < chosen.len() && keys@[(#[trigger] chosen@[a]) as int]@
                    == keys@[order@[p] as int]@;
            assert(path_key(files@[a]@) == path_key(walked@[k].path@));
        }
    }
    files
}

/// No two of the files to index are one file: the plain forms of their paths
/// differ.
pub proof fn selected_files_are_distinct(
    walked: Seq<WalkedFile>,
    handle: IndexHandle,
    files: Seq<String>,
    i: int,
    j: int,
)
    requires
        is_selection(walked, handle, files),
        0 <= i < j < files.len(),
    ensures
        plain_path_spec(files[i]@) != plain_path_spec(files[j]@),
{
    assert(path_key(files[i]@) != path_key(files[j]@));
    plain_paths_tell_paths_apart(files[i]@, files[j]@);
}

} // verus!
