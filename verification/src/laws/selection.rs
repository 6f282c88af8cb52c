//! Which files a reindex works on.
use crate::engine::registry::IndexHandle;
use crate::paths::{extension_spec, path_key, plain_path_spec, plain_paths_tell_paths_apart};
use crate::service::file_selection::{
    first_of_its_path, has_allowed_extension, is_first_naming, is_selection, lists_path,
    passes_filters, WalkedFile,
};
use crate::sorting::lex_le;
use crate::text::{ascii_lower, same_ignoring_ascii_case};
use vstd::prelude::*;

verus! {

/// Whether the two characters are the same, or the same ASCII letter in two cases.
pub open spec fn same_letter(a: char, b: char) -> bool {
    ||| a == b
    ||| 'A' <= a && a <= 'Z' && b as int == a as int + 32
    ||| 'A' <= b && b <= 'Z' && a as int == b as int + 32
}

/// Whether the two words differ in the case of ASCII letters at most.
pub open spec fn same_word(a: Seq<char>, b: Seq<char>) -> bool {
    a.len() == b.len() && forall|i: int| 0 <= i < a.len() ==> same_letter(#[trigger] a[i], b[i])
}

proof fn lemma_same_letter(a: char, b: char)
    ensures
        same_letter(a, b) == (ascii_lower(a) == ascii_lower(b)),
{
    if 'A' <= a <= 'Z' {
        assert(ascii_lower(a) as int == a as int + 32);
    }
    if 'A' <= b <= 'Z' {
        assert(ascii_lower(b) as int == b as int + 32);
    }
}

/// Texts are taken for the same where they differ in the case of ASCII letters at
/// most.
pub proof fn case_of_ascii_letters_does_not_count(a: Seq<char>, b: Seq<char>)
    ensures
        same_ignoring_ascii_case(a, b) == same_word(a, b),
{
    assert forall|i: int| 0 <= i < a.len() && a.len() == b.len() implies same_letter(
        #[trigger] a[i],
        b[i],
    ) == (ascii_lower(a[i]) == ascii_lower(b[i])) by {
        lemma_same_letter(a[i], b[i]);
    }
    if a.len() == b.len() {
        if same_ignoring_ascii_case(a, b) {
            assert forall|i: int| 0 <= i < a.len() implies same_letter(#[trigger] a[i], b[i]) by {
                assert(ascii_lower(a[i]) == ascii_lower(b[i]));
            }
        }
        if same_word(a, b) {
            assert forall|i: int| 0 <= i < a.len() implies ascii_lower(#[trigger] a[i])
                == ascii_lower(b[i]) by {
                assert(same_letter(a[i], b[i]));
            }
        }
    }
}

/// Whether the list of extensions lets the path through: it is empty, or one of
/// its entries is the path's extension, in any ASCII case.
pub open spec fn extension_is_listed(path: Seq<char>, list: Seq<String>) -> bool {
    list.len() == 0 || exists|x: int|
        0 <= x < list.len() && extension_spec(path) is Some && same_word(
            (#[trigger] list[x])@,
            extension_spec(path)->0,
        )
}

/// Whether the handle wants the file: no pattern excludes it, and its extension is
/// listed.
pub open spec fn is_wanted_file(f: WalkedFile, handle: IndexHandle) -> bool {
    &&& handle.exclude_globs@.len() == 0 || !f.excluded
    &&& extension_is_listed(f.path@, handle.extensions@)
}

/// Whether one of the files has the path of the walked file, component by
/// component.
pub open spec fn has_file(files: Seq<String>, path: Seq<char>) -> bool {
    exists|i: int| 0 <= i < files.len() && path_key((#[trigger] files[i])@) == path_key(path)
}

/// Whether the path is as the first wanted file that names it has it.
pub open spec fn is_first_wanted_path(
    walked: Seq<WalkedFile>,
    handle: IndexHandle,
    path: Seq<char>,
) -> bool {
    exists|k: int| #[trigger] is_first_wanted(walked, handle, k) && walked[k].path@ == path
}

/// Whether the handle wants the `k`-th file, and none before it that has the same
/// path, component by component.
pub open spec fn is_first_wanted(walked: Seq<WalkedFile>, handle: IndexHandle, k: int) -> bool {
    &&& 0 <= k < walked.len()
    &&& is_wanted_file(walked[k], handle)
    &&& forall|j: int|
        0 <= j < k && is_wanted_file(#[trigger] walked[j], handle) ==> plain_path_spec(
            walked[j].path@,
        ) != plain_path_spec(walked[k].path@)
}

/// Whether the path is that of a walked file that the handle wants.
pub open spec fn is_wanted_path(
    walked: Seq<WalkedFile>,
    handle: IndexHandle,
    path: Seq<char>,
) -> bool {
    exists|k: int|
        0 <= k < walked.len() && is_wanted_file(#[trigger] walked[k], handle) && walked[k].path@
            == path
}

proof fn lemma_wanted(f: WalkedFile, handle: IndexHandle)
    ensures
        passes_filters(f, handle) == is_wanted_file(f, handle),
{
    let list = handle.extensions@;
    let path = f.path@;
    if extension_spec(path) is Some {
        let e = extension_spec(path)->0;
        if has_allowed_extension(path, list) {
            let x = choose|x: int|
                0 <= x < list.len() && same_ignoring_ascii_case((#[trigger] list[x])@, e);
            case_of_ascii_letters_does_not_count(list[x]@, e);
            assert(same_word(list[x]@, e));
        }
        if list.len() > 0 && extension_is_listed(path, list) {
            let x = choose|x: int|
                0 <= x < list.len() && extension_spec(path) is Some && same_word(
                    (#[trigger] list[x])@,
                    e,
                );
            case_of_ascii_letters_does_not_count(list[x]@, e);
            assert(same_ignoring_ascii_case(list[x]@, e));
        }
    }
}

/// The files that are selected are the walked files that the handle wants, every
/// one of them and no other, each path once and in the order of the paths.
pub proof fn selection_is_every_wanted_file(
    walked: Seq<WalkedFile>,
    handle: IndexHandle,
    files: Seq<String>,
)
    requires
        is_selection(walked, handle, files),
    ensures
        forall|k: int|
            0 <= k < walked.len() && is_wanted_file(#[trigger] walked[k], handle) ==> has_file(
                files,
                walked[k].path@,
            ),
        forall|i: int|
            0 <= i < files.len() ==> is_wanted_path(walked, handle, (#[trigger] files[i])@),
        forall|i: int, j: int|
            0 <= i < j < files.len() ==> lex_le(
                path_key((#[trigger] files[i])@),
                path_key((#[trigger] files[j])@),
            ) && path_key(files[i]@) != path_key(files[j]@),
{
    assert forall|k: int|
        0 <= k < walked.len() && is_wanted_file(#[trigger] walked[k], handle) implies has_file(
        files,
        walked[k].path@,
    ) by {
        lemma_wanted(walked[k], handle);
        assert(lists_path(files, walked[k].path@));
        let i = choose|i: int|
            0 <= i < files.len() && path_key((#[trigger] files[i])@) == path_key(walked[k].path@);
        assert(path_key(files[i]@) == path_key(walked[k].path@));
    }
    assert forall|i: int| 0 <= i < files.len() implies is_wanted_path(
        walked,
        handle,
        (#[trigger] files[i])@,
    ) by {
        assert(is_first_naming(walked, handle, files[i]@));
        let k = choose|k: int| #[trigger]
            first_of_its_path(walked, handle, k) && walked[k].path@ == files[i]@;
        lemma_wanted(walked[k], handle);
        assert(is_wanted_file(walked[k], handle));
    }
}

/// Of several spellings of a path the one that was walked first is taken.
pub proof fn first_spelling_is_selected(
    walked: Seq<WalkedFile>,
    handle: IndexHandle,
    files: Seq<String>,
    i: int,
)
    requires
        is_selection(walked, handle, files),
        0 <= i < files.len(),
    ensures
        is_first_wanted_path(walked, handle, files[i]@),
{
    assert(is_first_naming(walked, handle, files[i]@));
    let k = choose|k: int| #[trigger]
        first_of_its_path(walked, handle, k) && walked[k].path@ == files[i]@;
    lemma_wanted(walked[k], handle);
    assert forall|j: int| 0 <= j < k && is_wanted_file(#[trigger] walked[j], handle) implies
        plain_path_spec(walked[j].path@) != plain_path_spec(walked[k].path@) by {
        lemma_wanted(walked[j], handle);
        plain_paths_tell_paths_apart(walked[j].path@, walked[k].path@);
    }
    assert(is_first_wanted(walked, handle, k));
}

/// Every entry of the list counts: a file that no pattern excludes and whose
/// extension is one of the listed ones, whichever it is, is selected.
pub proof fn every_listed_extension_counts(
    walked: Seq<WalkedFile>,
    handle: IndexHandle,
    files: Seq<String>,
    k: int,
    x: int,
)
    requires
        is_selection(walked, handle, files),
        0 <= k < walked.len(),
        !walked[k].excluded,
        0 <= x < handle.extensions@.len(),
        extension_spec(walked[k].path@) == Some(handle.extensions@[x]@),
    ensures
        passes_filters(walked[k], handle),
        has_file(files, walked[k].path@),
{
    let e = handle.extensions@[x]@;
    assert(same_word(e, e));
    assert(same_word(handle.extensions@[x]@, extension_spec(walked[k].path@)->0));
    assert(is_wanted_file(walked[k], handle));
    lemma_wanted(walked[k], handle);
    selection_is_every_wanted_file(walked, handle, files);
}

/// Whether every entry of the one list is an entry of the other.
pub open spec fn lists_all(list: Seq<String>, other: Seq<String>) -> bool {
    forall|x: int| #![trigger list[x]]
        0 <= x < list.len() ==> exists|y: int|
            0 <= y < other.len() && (#[trigger] other[y])@ == list[x]@
}

/// Listing more extensions, or listing them in another order, takes no file out of
/// the selection.
pub proof fn more_extensions_take_no_file_out(
    walked: Seq<WalkedFile>,
    handle: IndexHandle,
    wider: IndexHandle,
    files: Seq<String>,
    more: Seq<String>,
)
    requires
        is_selection(walked, handle, files),
        is_selection(walked, wider, more),
        handle.extensions@.len() > 0,
        lists_all(handle.extensions@, wider.extensions@),
        wider.exclude_globs@.len() == 0 || handle.exclude_globs@.len() > 0,
    ensures
        forall|i: int| 0 <= i < files.len() ==> has_file(more, (#[trigger] files[i])@),
{
    selection_is_every_wanted_file(walked, handle, files);
    selection_is_every_wanted_file(walked, wider, more);
    assert forall|i: int| 0 <= i < files.len() implies has_file(more, (#[trigger] files[i])@) by {
        assert(is_wanted_path(walked, handle, files[i]@));
        let k = choose|k: int|
            0 <= k < walked.len() && is_wanted_file(#[trigger] walked[k], handle)
                && walked[k].path@ == files[i]@;
        let path = walked[k].path@;
        let e = extension_spec(path)->0;
        let x = choose|x: int|
            0 <= x < handle.extensions@.len() && extension_spec(path) is Some && same_word(
                (#[trigger] handle.extensions@[x])@,
                e,
            );
        assert(handle.extensions@[x]@.len() == e.len());
        let y = choose|y: int|
            0 <= y < wider.extensions@.len() && (#[trigger] wider.extensions@[y])@
                == handle.extensions@[x]@;
        assert(same_word(wider.extensions@[y]@, e));
        assert(is_wanted_file(walked[k], wider));
    }
}

/// Without filters every walked file is selected.
pub proof fn without_filters_every_file_is_selected(
    walked: Seq<WalkedFile>,
    handle: IndexHandle,
    files: Seq<String>,
    k: int,
)
    requires
        is_selection(walked, handle, files),
        handle.extensions@.len() == 0,
        handle.exclude_globs@.len() == 0,
        0 <= k < walked.len(),
    ensures
        has_file(files, walked[k].path@),
{
    assert(is_wanted_file(walked[k], handle));
    selection_is_every_wanted_file(walked, handle, files);
}

} // verus!
