//! Finding and taking over projects, and restoring indexes at the start.
use crate::commands::convert::{
    candidates, config_of, count_status, existed_before, first_existing, names_config,
    number_keys, project_name, skipped_names, tells, ConvertLine, ConvertResult, ConvertStatus,
};
use crate::commands::format::nearest;
use crate::commands::start::{
    gigabytes_text, is_restoration, is_restored, kept_extensions, records, still_alive, subtrees, without_dots, IndexEntry,
};
use crate::engine::registry::IndexHandle;
use crate::json::parsed_json;
use crate::paths::{file_name_spec, join_path_spec, parent_spec};
use crate::service::server::create_answer;
use crate::sorting::lex_le;
use crate::text::{decimal, has_text, replace_char_spec, texts, trim_spec};
use vstd::prelude::*;

verus! {

// ---------------------------------------------------------------------------
// Looking for a project
// ---------------------------------------------------------------------------

/// The directory `n` levels above, where there is one.
pub open spec fn above(dir: Seq<char>, n: nat) -> Option<Seq<char>>
    decreases n,
{
    if n == 0 {
        Some(dir)
    } else {
        match parent_spec(dir) {
            Some(up) => above(up, (n - 1) as nat),
            None => None,
        }
    }
}

/// A project is looked for in the directory and in every directory above it, the
/// nearest first, and nowhere else.
pub proof fn every_directory_above_is_looked_at(dir: Seq<char>, n: nat)
    ensures
        n < candidates(dir).len() <==> above(dir, n) is Some,
        above(dir, n) matches Some(up) ==> candidates(dir)[n as int] == config_of(up),
    decreases n,
{
    crate::paths::lemma_parent_is_shorter(dir);
    if n > 0 {
        if let Some(up) = parent_spec(dir) {
            every_directory_above_is_looked_at(up, (n - 1) as nat);
            assert(candidates(dir) == seq![config_of(dir)] + candidates(up));
        }
    }
}

/// The configuration of a project lies in a directory of its own below the root.
pub proof fn configuration_lies_below_the_root(dir: Seq<char>)
    requires
        dir.len() > 0,
        dir.last() != '/',
    ensures
        config_of(dir) == dir + "/.mcp-vector-search/config.json"@,
{
    reveal_strlit(".mcp-vector-search");
    reveal_strlit("config.json");
    reveal_strlit("/.mcp-vector-search/config.json");
    let one = join_path_spec(dir, ".mcp-vector-search"@);
    assert(".mcp-vector-search"@[0] == '.' && ".mcp-vector-search"@.len() == 18);
    assert("config.json"@[0] == 'c' && "config.json"@.len() == 11);
    assert(one =~= dir.push('/') + ".mcp-vector-search"@);
    assert(one.last() == 'h');
    assert("/.mcp-vector-search/config.json"@ =~= seq!['/'] + ".mcp-vector-search"@ + seq!['/']
        + "config.json"@);
    assert(config_of(dir) =~= dir + "/.mcp-vector-search/config.json"@);
}

/// A file counts as the configuration of a project by its own name and that of its
/// directory.
pub proof fn configurations_are_known_by_two_names(
    path: Seq<char>,
    name: Seq<char>,
    dir: Seq<char>,
    dir_name: Seq<char>,
)
    requires
        file_name_spec(path) == Some(name),
        parent_spec(path) == Some(dir),
        file_name_spec(dir) == Some(dir_name),
    ensures
        names_config(path) <==> name == "config.json"@ && dir_name == ".mcp-vector-search"@,
{
}

/// The first place that exists is found: one that exists, and none before it does.
/// Where nothing is found, no place exists.
pub proof fn nearest_place_is_found(places: Seq<Seq<char>>, existing: Seq<String>)
    ensures
        match first_existing(places, existing) {
            Some(p) => is_nearest(places, existing, p),
            None => forall|i: int|
                0 <= i < places.len() ==> !has_text(existing, #[trigger] places[i]),
        },
    decreases places.len(),
{
    if places.len() > 0 {
        let rest = places.skip(1);
        if has_text(existing, places[0]) {
            assert(is_nearest_at(places, existing, 0));
        } else {
            nearest_place_is_found(rest, existing);
            match first_existing(rest, existing) {
                Some(p) => {
                    let i = choose|i: int| #[trigger]
                        is_nearest_at(rest, existing, i) && rest[i] == p;
                    assert forall|j: int| 0 <= j < i + 1 implies !has_text(
                        existing,
                        #[trigger] places[j],
                    ) by {
                        if j > 0 {
                            assert(rest[j - 1] == places[j]);
                        }
                    }
                    assert(places[i + 1] == rest[i]);
                    assert(is_nearest_at(places, existing, i + 1));
                },
                None => {
                    assert forall|i: int| 0 <= i < places.len() implies !has_text(
                        existing,
                        #[trigger] places[i],
                    ) by {
                        if i > 0 {
                            assert(rest[i - 1] == places[i]);
                        }
                    }
                },
            }
        }
    }
}

/// Whether the `i`-th place exists and none before it does.
pub open spec fn is_nearest_at(places: Seq<Seq<char>>, existing: Seq<String>, i: int) -> bool {
    &&& 0 <= i < places.len()
    &&& has_text(existing, places[i])
    &&& forall|j: int| 0 <= j < i ==> !has_text(existing, #[trigger] places[j])
}

/// Whether the path is the first of the places that exists.
pub open spec fn is_nearest(places: Seq<Seq<char>>, existing: Seq<String>, p: Seq<char>) -> bool {
    exists|i: int| #[trigger] is_nearest_at(places, existing, i) && places[i] == p
}

/// No project is looked for among installed packages, build results, version control
/// data, caches and environments.
pub proof fn directories_of_tools_are_passed_over()
    ensures
        skipped_names().contains("node_modules"@),
        skipped_names().contains(".git"@),
        skipped_names().contains("target"@),
        skipped_names().contains("Library"@),
        skipped_names().contains(".cache"@),
        skipped_names().contains(".cargo"@),
        skipped_names().contains(".rustup"@),
        skipped_names().contains(".npm"@),
        skipped_names().contains(".pnpm"@),
        skipped_names().contains(".pyenv"@),
        skipped_names().contains(".nvm"@),
        skipped_names().contains("venv"@),
        skipped_names().contains(".venv"@),
        skipped_names().contains("__pycache__"@),
        skipped_names().len() == 14,
{
    let s = skipped_names();
    assert(s[0] == "node_modules"@);
    assert(s[1] == ".git"@);
    assert(s[2] == "target"@);
    assert(s[3] == "Library"@);
    assert(s[4] == ".cache"@);
    assert(s[5] == ".cargo"@);
    assert(s[6] == ".rustup"@);
    assert(s[7] == ".npm"@);
    assert(s[8] == ".pnpm"@);
    assert(s[9] == ".pyenv"@);
    assert(s[10] == ".nvm"@);
    assert(s[11] == "venv"@);
    assert(s[12] == ".venv"@);
    assert(s[13] == "__pycache__"@);
}

proof fn lemma_replaced(s: Seq<char>, from: char, to: char)
    ensures
        replace_char_spec(s, from, seq![to]).len() == s.len(),
        forall|i: int|
            0 <= i < s.len() ==> #[trigger] replace_char_spec(s, from, seq![to])[i] == (if s[i]
                == from {
                to
            } else {
                s[i]
            }),
    decreases s.len(),
{
    if s.len() > 0 {
        let head = s.drop_last();
        lemma_replaced(head, from, to);
        let r = replace_char_spec(s, from, seq![to]);
        assert forall|i: int| 0 <= i < s.len() implies #[trigger] r[i] == (if s[i] == from {
            to
        } else {
            s[i]
        }) by {
            if i < head.len() {
                assert(r[i] == replace_char_spec(head, from, seq![to])[i]);
                assert(head[i] == s[i]);
            }
        }
    }
}

/// A project is named after the last part of its root, in lower case; every space in
/// it becomes a hyphen, and nothing else changes.
pub proof fn projects_are_named_after_their_root(root: Seq<char>, base: Seq<char>, i: int)
    requires
        file_name_spec(root) == Some(base),
    ensures
        file_name_spec(Seq::<char>::empty()) is None ==> project_name(Seq::<char>::empty())
            == "project"@,
        project_name(root).len() == crate::commands::convert::lowercase(base).len(),
        0 <= i < project_name(root).len() ==> project_name(root)[i] == (
        if crate::commands::convert::lowercase(base)[i] == ' ' {
            '-'
        } else {
            crate::commands::convert::lowercase(base)[i]
        }),
        !project_name(root).contains(' '),
{
    reveal_strlit("-");
    assert("-"@ =~= seq!['-']);
    let low = crate::commands::convert::lowercase(base);
    lemma_replaced(low, ' ', '-');
    let name = project_name(root);
    if name.contains(' ') {
        let k = choose|k: int| 0 <= k < name.len() && name[k] == ' ';
        assert(name[k] == replace_char_spec(low, ' ', seq!['-'])[k]);
    }
}

// ---------------------------------------------------------------------------
// Taking a project over
// ---------------------------------------------------------------------------

/// What the daemon answers to a request for a new index is understood: an index that
/// was there already counts as registered before, a new one does not.
pub proof fn answers_about_new_indexes_are_understood(body: Seq<char>, id: Seq<char>, created: bool)
    requires
        parsed_json(body) == Ok::<crate::json::JsonTree, Seq<char>>(create_answer(id, created)),
    ensures
        existed_before(body) == !created,
{
    reveal_strlit("id");
    reveal_strlit("created");
    reveal_strlit("reason");
    assert("id"@.len() == 2 && "created"@.len() == 7 && "reason"@.len() == 6);
}

/// The results whose status is accepted.
pub open spec fn with_status(
    results: Seq<(usize, ConvertResult)>,
    is: spec_fn(ConvertStatus) -> bool,
) -> Seq<(usize, ConvertResult)> {
    results.filter(|r: (usize, ConvertResult)| is(r.1.status))
}

/// Each result is counted once under its status.
pub proof fn every_result_is_counted(
    results: Seq<(usize, ConvertResult)>,
    is: spec_fn(ConvertStatus) -> bool,
)
    ensures
        count_status(results, is) == with_status(results, is).len(),
    decreases results.len(),
{
    reveal(Seq::filter);
    if results.len() > 0 {
        every_result_is_counted(results.drop_last(), is);
    }
}

/// Results are ordered by their numbers.
pub proof fn results_go_by_number(results: Seq<(usize, ConvertResult)>, a: int, b: int)
    requires
        0 <= a < results.len(),
        0 <= b < results.len(),
    ensures
        lex_le(number_keys(results)[a], number_keys(results)[b]) <==> results[a].0 <= results[b].0,
{
    let x = number_keys(results)[a];
    let y = number_keys(results)[b];
    assert(x.skip(1).len() == 0);
    assert(lex_le(x.skip(1), y.skip(1)));
}

/// The line on a project has its number among all of them, its name, its root, and
/// a mark and a note by what came of it: a mark of success, of repetition, of failure
/// or none, and the reason of a failure.
pub proof fn lines_tell_what_came_of_the_project(
    line: ConvertLine,
    number: usize,
    total: usize,
    r: ConvertResult,
)
    requires
        tells(line, number, total, r),
    ensures
        line.prefix@ == seq!['['] + decimal(number as nat) + seq!['/'] + decimal(total as nat)
            + seq![']'],
        r.name@.is_prefix_of(line.name@),
        line.name@.len() >= 24,
        line.path@ == r.path@,
        line.mark is None <==> r.status is DryRun,
        r.status is Queued ==> line.mark->0@ == seq!['✓'],
        r.status is AlreadyRegistered ==> line.mark->0@ == seq!['↻'],
        r.status is Failed ==> line.mark->0@ == seq!['✗'],
        r.status matches ConvertStatus::Failed(e) ==> (line.note matches Some(n) && n@ == seq!['(']
            + e@ + seq![')']),
        r.status is Queued || r.status is DryRun ==> line.note is None,
        r.status is AlreadyRegistered ==> line.note is Some,
{
    reveal_strlit("[");
    reveal_strlit("/");
    reveal_strlit("]");
    reveal_strlit("(");
    reveal_strlit(")");
    reveal_strlit("✓");
    reveal_strlit("↻");
    reveal_strlit("✗");
    assert("["@ =~= seq!['['] && "/"@ =~= seq!['/'] && "]"@ =~= seq![']']);
    assert("("@ =~= seq!['('] && ")"@ =~= seq![')']);
    assert("✓"@ =~= seq!['✓'] && "↻"@ =~= seq!['↻'] && "✗"@ =~= seq!['✗']);
    assert(r.name@ =~= line.name@.subrange(0, r.name@.len() as int));
}

// ---------------------------------------------------------------------------
// Starting
// ---------------------------------------------------------------------------

/// The positions of the first `n` processes that are alive, in ascending order.
pub open spec fn living(alive: Seq<bool>, n: nat) -> Seq<int> {
    Seq::new(n, |i: int| i).filter(|i: int| alive[i])
}

/// The processes that are left are those that are alive, in order.
pub proof fn living_processes_are_left(pids: Seq<u32>, alive: Seq<bool>)
    ensures
        still_alive(pids, alive).len() == living(alive, pids.len()).len(),
        forall|p: int|
            0 <= p < living(alive, pids.len()).len() ==> 0 <= (#[trigger] living(
                alive,
                pids.len(),
            )[p]) < pids.len() && still_alive(pids, alive)[p] == pids[living(alive, pids.len())[p]],
    decreases pids.len(),
{
    reveal(Seq::filter);
    let n = pids.len();
    assert(Seq::new(0, |i: int| i) =~= Seq::empty());
    if n > 0 {
        let head = pids.drop_last();
        let m = (n - 1) as nat;
        living_processes_are_left(head, alive);
        assert(Seq::new(n, |i: int| i).drop_last() =~= Seq::new(m, |i: int| i));
        assert(Seq::new(n, |i: int| i).last() == m);
        let old = living(alive, m);
        let pos = living(alive, n);
        let before = still_alive(head, alive);
        let after = still_alive(pids, alive);
        assert forall|p: int| 0 <= p < pos.len() implies 0 <= (#[trigger] pos[p]) < n && after[p]
            == pids[pos[p]] by {
            if p < old.len() {
                assert(pos[p] == old[p]);
                assert(after[p] == before[p]);
                assert(head[old[p]] == pids[old[p]]);
            }
        }
    }
}

/// Memory is told in gigabytes with one digit behind the point: the tenths nearest to
/// it.
pub proof fn memory_is_told_in_tenths_of_gigabytes(mb: nat)
    ensures
        is_told_in_tenths(mb, gigabytes_text(mb), nearest(mb * 10, 1024)),
{
    crate::laws::figures::rounding_goes_to_the_nearest(mb * 10, 1024);
}

/// Whether the text is that number of tenths, at most one half of a tenth away from
/// the memory.
pub open spec fn is_told_in_tenths(mb: nat, text: Seq<char>, tenths: nat) -> bool {
    &&& text == decimal(tenths / 10) + "."@ + decimal(tenths % 10)
    &&& 2 * (tenths * 1024) <= 2 * (mb * 10) + 1024
    &&& 2 * (mb * 10) <= 2 * (tenths * 1024) + 1024
}

/// Whether the entry names a subtree, not the whole root.
pub open spec fn names_subtree(p: Seq<char>) -> bool {
    trim_spec(p).len() > 0 && trim_spec(p) != seq!['.']
}

/// The positions of the first `n` entries that name a subtree, in ascending order.
pub open spec fn subtree_positions(paths: Seq<Seq<char>>, n: nat) -> Seq<int> {
    Seq::new(n, |i: int| i).filter(|i: int| names_subtree(paths[i]))
}

proof fn lemma_subtrees(root: Seq<char>, paths: Seq<Seq<char>>, n: nat)
    requires
        n <= paths.len(),
    ensures
        subtrees(root, paths.take(n as int)).len() == subtree_positions(paths, n).len(),
        forall|p: int|
            0 <= p < subtree_positions(paths, n).len() ==> 0 <= (#[trigger] subtree_positions(
                paths,
                n,
            )[p]) < n && subtrees(root, paths.take(n as int))[p] == join_path_spec(
                root,
                trim_spec(paths[subtree_positions(paths, n)[p]]),
            ),
    decreases n,
{
    reveal(Seq::filter);
    reveal_strlit(".");
    assert("."@ =~= seq!['.']);
    assert(Seq::new(0, |i: int| i) =~= Seq::empty());
    if n == 0 {
        assert(paths.take(0) =~= Seq::empty());
    } else {
        let m = (n - 1) as nat;
        lemma_subtrees(root, paths, m);
        assert(paths.take(n as int).drop_last() =~= paths.take(m as int));
        assert(paths.take(n as int).last() == paths[m as int]);
        assert(Seq::new(n, |i: int| i).drop_last() =~= Seq::new(m, |i: int| i));
        assert(Seq::new(n, |i: int| i).last() == m);
        let old = subtree_positions(paths, m);
        let pos = subtree_positions(paths, n);
        let before = subtrees(root, paths.take(m as int));
        let after = subtrees(root, paths.take(n as int));
        assert forall|p: int| 0 <= p < pos.len() implies 0 <= (#[trigger] pos[p]) < n && after[p]
            == join_path_spec(root, trim_spec(paths[pos[p]])) by {
            if p < old.len() {
                assert(pos[p] == old[p]);
                assert(after[p] == before[p]);
            }
        }
    }
}

proof fn lemma_without_dots(dots: Seq<char>, s: Seq<char>)
    requires
        forall|i: int| 0 <= i < dots.len() ==> #[trigger] dots[i] == '.',
        s.len() == 0 || s[0] != '.',
    ensures
        without_dots(dots + s) == s,
    decreases dots.len(),
{
    if dots.len() == 0 {
        assert(dots + s =~= s);
    } else {
        let rest = dots.skip(1);
        assert forall|i: int| 0 <= i < rest.len() implies #[trigger] rest[i] == '.' by {
            assert(rest[i] == dots[i + 1]);
        }
        assert((dots + s).skip(1) =~= rest + s);
        assert((dots + s)[0] == dots[0]);
        lemma_without_dots(rest, s);
    }
}

/// An extension may be written with dots before it; they do not count.
pub proof fn dots_before_an_extension_do_not_count(dots: Seq<char>, s: Seq<char>)
    requires
        forall|i: int| 0 <= i < dots.len() ==> #[trigger] dots[i] == '.',
        s.len() == 0 || s[0] != '.',
    ensures
        without_dots(dots + s) == s,
{
    lemma_without_dots(dots, s);
}

/// The positions of the first `n` entries that name an extension, in ascending order.
pub open spec fn extension_positions(list: Seq<Seq<char>>, n: nat) -> Seq<int> {
    Seq::new(n, |i: int| i).filter(|i: int| without_dots(list[i]).len() > 0)
}

proof fn lemma_extensions(list: Seq<Seq<char>>, n: nat)
    requires
        n <= list.len(),
    ensures
        kept_extensions(list.take(n as int)).len() == extension_positions(list, n).len(),
        forall|p: int|
            0 <= p < extension_positions(list, n).len() ==> 0 <= (#[trigger] extension_positions(
                list,
                n,
            )[p]) < n && kept_extensions(list.take(n as int))[p] == without_dots(
                list[extension_positions(list, n)[p]],
            ),
    decreases n,
{
    reveal(Seq::filter);
    assert(Seq::new(0, |i: int| i) =~= Seq::empty());
    if n == 0 {
        assert(list.take(0) =~= Seq::empty());
    } else {
        let m = (n - 1) as nat;
        lemma_extensions(list, m);
        assert(list.take(n as int).drop_last() =~= list.take(m as int));
        assert(list.take(n as int).last() == list[m as int]);
        assert(Seq::new(n, |i: int| i).drop_last() =~= Seq::new(m, |i: int| i));
        assert(Seq::new(n, |i: int| i).last() == m);
        let old = extension_positions(list, m);
        let pos = extension_positions(list, n);
        let before = kept_extensions(list.take(m as int));
        let after = kept_extensions(list.take(n as int));
        assert forall|p: int| 0 <= p < pos.len() implies 0 <= (#[trigger] pos[p]) < n && after[p]
            == without_dots(list[pos[p]]) by {
            if p < old.len() {
                assert(pos[p] == old[p]);
                assert(after[p] == before[p]);
            }
        }
    }
}

/// Whether the two lists hold the same texts.
pub open spec fn same_texts(a: Seq<String>, b: Seq<String>) -> bool {
    a.len() == b.len() && forall|i: int| 0 <= i < a.len() ==> (#[trigger] a[i])@ == b[i]@
}

/// A restored index is what its entry records: its root, its exclusions and its terms
/// as they are, of its subtrees every one that is not the whole root, taken below the
/// root, and every extension without the dots before it.
pub proof fn restored_index_is_as_recorded(h: IndexHandle, e: IndexEntry)
    requires
        is_restored(h, e),
    ensures
        h.id@ == e.id@,
        h.root_path@ == e.root_path@,
        same_texts(h.exclude_globs@, e.exclude_globs@),
        same_texts(h.domain_terms@, e.domain_terms@),
        ({
            let pos = subtree_positions(texts(e.include_paths@), e.include_paths@.len());
            &&& h.include_paths@.len() == pos.len()
            &&& forall|p: int|
                0 <= p < pos.len() ==> (#[trigger] h.include_paths@[p])@ == join_path_spec(
                    e.root_path@,
                    trim_spec(e.include_paths@[pos[p]]@),
                )
        }),
        ({
            let pos = extension_positions(texts(e.extensions@), e.extensions@.len());
            &&& h.extensions@.len() == pos.len()
            &&& forall|p: int|
                0 <= p < pos.len() ==> (#[trigger] h.extensions@[p])@ == without_dots(
                    e.extensions@[pos[p]]@,
                )
        }),
{
    lemma_same_texts(h.exclude_globs@, e.exclude_globs@);
    lemma_same_texts(h.domain_terms@, e.domain_terms@);
    let paths = texts(e.include_paths@);
    let n = paths.len();
    lemma_subtrees(e.root_path@, paths, n);
    assert(paths.take(n as int) =~= paths);
    assert(texts(h.include_paths@).len() == h.include_paths@.len());
    let pos = subtree_positions(paths, n);
    assert forall|p: int| 0 <= p < pos.len() implies (#[trigger] h.include_paths@[p])@
        == join_path_spec(e.root_path@, trim_spec(e.include_paths@[pos[p]]@)) by {
        assert(texts(h.include_paths@)[p] == h.include_paths@[p]@);
        assert(0 <= pos[p] < n);
        assert(paths[pos[p]] == e.include_paths@[pos[p]]@);
    }
    let list = texts(e.extensions@);
    let m = list.len();
    lemma_extensions(list, m);
    assert(list.take(m as int) =~= list);
    assert(texts(h.extensions@).len() == h.extensions@.len());
    let at = extension_positions(list, m);
    assert forall|p: int| 0 <= p < at.len() implies (#[trigger] h.extensions@[p])@ == without_dots(
        e.extensions@[at[p]]@,
    ) by {
        assert(texts(h.extensions@)[p] == h.extensions@[p]@);
        assert(0 <= at[p] < m);
        assert(list[at[p]] == e.extensions@[at[p]]@);
    }
}

/// Every recorded index that was not live is registered as the first entry of its
/// name records it; a live one is left alone, and no other index appears.
pub proof fn indexes_are_restored_as_first_recorded(
    before: Map<Seq<char>, IndexHandle>,
    after: Map<Seq<char>, IndexHandle>,
    entries: Seq<IndexEntry>,
    i: int,
    id: Seq<char>,
)
    requires
        is_restoration(before, after, entries, entries.len() as int),
        0 <= i < entries.len(),
    ensures
        after.contains_key(entries[i].id@),
        !before.contains_key(entries[i].id@) && (forall|j: int|
            0 <= j < i ==> (#[trigger] entries[j]).id@ != entries[i].id@) ==> is_restored(
            after[entries[i].id@],
            entries[i],
        ),
        before.contains_key(id) ==> after.contains_key(id) && after[id] == before[id],
        after.contains_key(id) ==> before.contains_key(id) || exists|j: int|
            0 <= j < entries.len() && (#[trigger] entries[j]).id@ == id,
{
    assert(records(entries, entries.len() as int, entries[i].id@));
    if after.contains_key(id) && !before.contains_key(id) {
        assert(records(entries, entries.len() as int, id));
    }
}

proof fn lemma_same_texts(a: Seq<String>, b: Seq<String>)
    requires
        texts(a) == texts(b),
    ensures
        same_texts(a, b),
{
    assert(texts(a).len() == a.len());
    assert(texts(b).len() == b.len());
    assert forall|i: int| 0 <= i < a.len() implies (#[trigger] a[i])@ == b[i]@ by {
        assert(texts(a)[i] == a[i]@);
        assert(texts(b)[i] == b[i]@);
    }
}

} // verus!
