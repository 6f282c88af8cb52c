//! The checkup of an installation, and the status report.
use crate::commands::doctor::{
    all_checks, breaks_down, cache_check, cache_dir, check_views, count_empty, daemon_check,
    data_cache, dir_check, empties, empty_views, has_no_chunks, indexes_check, lock_check,
    lock_fix, lock_in, lock_pid, looks_into_indexes, port_check, program_cache, summary_check, BreakdownRow,
    CheckResult, CheckView, DoctorProbes, EmptyIndex, LockFix, LockProbe,
};
use crate::commands::format::grouped;
use crate::commands::status::{
    answer_tree, by_name, index_tree, names_in, shows, status_of, status_tree, text_or_blank,
    texts_among, version_in, IndexStatus, StatusRow,
};
use crate::json::{member, number_at, parsed_json, parsed_or_empty, text_at, JsonTree};
use crate::laws::text::{comes_before, keys_are_ordered_by_text};
use crate::paths::{join_path_spec, parent_spec, text_key};
use crate::text::{decimal, has_text};
use vstd::prelude::*;

verus! {

/// Whether the part stands in the text at the place.
pub open spec fn stands_in_at(part: Seq<char>, s: Seq<char>, at: int) -> bool {
    0 <= at && at + part.len() <= s.len() && s.subrange(at, at + part.len()) == part
}

/// Whether the part stands somewhere in the text.
pub open spec fn stands_in(part: Seq<char>, s: Seq<char>) -> bool {
    exists|at: int| #[trigger] stands_in_at(part, s, at)
}

/// What was put between two texts stands in the whole.
pub proof fn middle_stands_in_the_whole(before: Seq<char>, part: Seq<char>, after: Seq<char>)
    ensures
        stands_in(part, before + part + after),
{
    let s = before + part + after;
    assert(s.subrange(before.len() as int, before.len() as int + part.len()) =~= part);
    assert(stands_in_at(part, s, before.len() as int));
}

// ---------------------------------------------------------------------------
// Single checks
// ---------------------------------------------------------------------------

/// The message of a check.
pub open spec fn message_of(c: CheckView) -> Seq<char> {
    match c {
        CheckView::Passed(s) => s,
        CheckView::Warn(s) => s,
        CheckView::Error(s) => s,
    }
}

/// The check of the daemon passes where it runs, and then names its address and
/// version; otherwise it is an error.
pub proof fn daemon_check_tells_whether_it_runs(base: Seq<char>, version: Seq<char>)
    ensures
        daemon_check(true, base, version) is Passed,
        stands_in(base, message_of(daemon_check(true, base, version))),
        stands_in(version, message_of(daemon_check(true, base, version))),
        daemon_check(false, base, version) is Error,
{
    let s = message_of(daemon_check(true, base, version));
    assert(s =~= "Daemon running at "@ + base + (" (v"@ + version + ")"@));
    middle_stands_in_the_whole("Daemon running at "@, base, " (v"@ + version + ")"@);
    assert(s =~= ("Daemon running at "@ + base + " (v"@) + version + ")"@);
    middle_stands_in_the_whole("Daemon running at "@ + base + " (v"@, version, ")"@);
}

/// The check of the port passes where it is reachable, is an error where it is not,
/// and names the port either way.
pub proof fn port_check_tells_whether_it_is_reachable(port: u16, reachable: bool)
    ensures
        port_check(port, reachable) is Passed <==> reachable,
        port_check(port, reachable) is Error <==> !reachable,
        stands_in(decimal(port as nat), message_of(port_check(port, reachable))),
{
    middle_stands_in_the_whole("Port "@, decimal(port as nat), " is reachable"@);
    middle_stands_in_the_whole("Port "@, decimal(port as nat), " is not reachable"@);
}

/// The check of the model cache passes where the model is there; it never is an
/// error. Where there is a cache, it is named.
pub proof fn cache_check_tells_whether_the_model_is_there(
    cache: Seq<char>,
    model_there: bool,
    cache_there: bool,
    size: u64,
)
    ensures
        cache_check(cache, model_there, cache_there, size) is Passed <==> model_there,
        cache_check(cache, model_there, cache_there, size) is Warn <==> !model_there,
        model_there || cache_there ==> stands_in(
            cache,
            message_of(cache_check(cache, model_there, cache_there, size)),
        ),
        model_there ==> stands_in(
            crate::commands::format::bytes_text(size as nat),
            message_of(cache_check(cache, model_there, cache_there, size)),
        ),
{
    let s = message_of(cache_check(cache, model_there, cache_there, size));
    let bytes = crate::commands::format::bytes_text(size as nat);
    if model_there {
        let tail = " ("@ + bytes + ", "@ + "all-MiniLM-L6-v2"@ + ")"@;
        assert(s =~= "Model cache: "@ + cache + tail);
        middle_stands_in_the_whole("Model cache: "@, cache, tail);
        let head = "Model cache: "@ + cache + " ("@;
        let end = ", "@ + "all-MiniLM-L6-v2"@ + ")"@;
        assert(s =~= head + bytes + end);
        middle_stands_in_the_whole(head, bytes, end);
    } else if cache_there {
        let tail = ") but "@ + "all-MiniLM-L6-v2"@
            + " not found — will download on first start"@;
        assert(s =~= "Model cache directory exists ("@ + cache + tail);
        middle_stands_in_the_whole("Model cache directory exists ("@, cache, tail);
    }
}

/// The check of the data directory passes where it can be written to, warns where it
/// is not there, and is an error where it cannot be written to; it is named.
pub proof fn dir_check_tells_whether_it_can_be_written(
    dir: Seq<char>,
    there: bool,
    writable: bool,
)
    ensures
        dir_check(dir, there, writable) is Passed <==> there && writable,
        dir_check(dir, there, writable) is Warn <==> !there,
        dir_check(dir, there, writable) is Error <==> there && !writable,
        stands_in(dir, message_of(dir_check(dir, there, writable))),
{
    middle_stands_in_the_whole(
        "Data directory "@,
        dir,
        " does not exist (will be created on first start)"@,
    );
    middle_stands_in_the_whole("Data directory: "@, dir, " (writable)"@);
    middle_stands_in_the_whole("Data directory "@, dir, " is not writable"@);
}

/// The check of the lock file passes where there is none, or where the process that
/// it names is alive and the daemon answers. It warns of any other lock file, and
/// names the process where it can.
pub proof fn lock_check_tells_whether_it_is_held(
    data_dir: Seq<char>,
    lock: LockProbe,
    running: bool,
)
    ensures
        lock_check(data_dir, lock, running) is Passed <==> !lock.there || (lock_pid(lock) is Some
            && lock.alive && running),
        !(lock_check(data_dir, lock, running) is Error),
        lock.there ==> (lock_pid(lock) matches Some(pid) ==> stands_in(
            decimal(pid as nat),
            message_of(lock_check(data_dir, lock, running)),
        )),
        lock.there && !(lock_pid(lock) is Some && lock.alive) ==> stands_in(
            lock_in(data_dir),
            message_of(lock_check(data_dir, lock, running)),
        ),
{
    let s = message_of(lock_check(data_dir, lock, running));
    let path = lock_in(data_dir);
    if lock.there {
        match lock_pid(lock) {
            Some(pid) => {
                let d = decimal(pid as nat);
                if !lock.alive {
                    let tail = " is not running ("@ + path + ")"@;
                    assert(s =~= "Stale lock file: PID "@ + d + tail);
                    middle_stands_in_the_whole("Stale lock file: PID "@, d, tail);
                    let head = "Stale lock file: PID "@ + d + " is not running ("@;
                    assert(s =~= head + path + ")"@);
                    middle_stands_in_the_whole(head, path, ")"@);
                } else if running {
                    middle_stands_in_the_whole("Lock file: healthy (PID "@, d, " is running)"@);
                } else {
                    middle_stands_in_the_whole(
                        "Lock file contains PID "@,
                        d,
                        " which is alive but /health failed"@,
                    );
                }
            },
            None => {
                middle_stands_in_the_whole(
                    "Lock file exists but contains no valid PID ("@,
                    path,
                    ")"@,
                );
            },
        }
    }
}

/// A lock file is removed exactly where it names no process that is alive.
pub proof fn locks_of_live_processes_are_kept(lock: LockProbe)
    ensures
        lock_fix(lock) == LockFix::Nothing <==> !lock.there,
        lock_fix(lock) == LockFix::Keep <==> lock.there && lock.alive && lock_pid(lock) is Some,
        lock_fix(lock) == LockFix::Remove <==> lock.there && !(lock.alive && lock_pid(lock) is Some),
{
}

/// Models are cached where the setting says. Without one it is the directory for
/// local data, or the one of the program, the first of them that has a cache; else
/// the working directory.
pub proof fn models_are_cached_in_the_first_place_found(
    setting: Option<Seq<char>>,
    data: Seq<char>,
    exe: Seq<char>,
    existing: Seq<String>,
)
    ensures
        setting matches Some(s) ==> cache_dir(setting, Some(data), Some(exe), existing) == s,
        setting is None && has_text(existing, data_cache(data)) ==> cache_dir(
            setting,
            Some(data),
            Some(exe),
            existing,
        ) == data_cache(data),
        setting is None && !has_text(existing, data_cache(data)) && has_text(
            existing,
            program_cache(exe),
        ) ==> cache_dir(setting, Some(data), Some(exe), existing) == program_cache(exe),
        setting is None && !has_text(existing, data_cache(data)) && !has_text(
            existing,
            program_cache(exe),
        ) ==> cache_dir(setting, Some(data), Some(exe), existing) == ".fastembed_cache"@,
        setting is None ==> cache_dir(setting, None, None, existing) == ".fastembed_cache"@,
        data_cache(data) == join_path_spec(join_path_spec(data, "trusty-search"@), ".fastembed_cache"@),
        parent_spec(exe) matches Some(dir) ==> program_cache(exe) == join_path_spec(
            dir,
            ".fastembed_cache"@,
        ),
{
}

// ---------------------------------------------------------------------------
// Indexes
// ---------------------------------------------------------------------------

/// The positions of the first `n` indexes without chunks, in ascending order.
pub open spec fn unfilled(statuses: Seq<IndexStatus>, n: nat) -> Seq<int> {
    Seq::new(n, |i: int| i).filter(
        |i: int| number_at(status_of(statuses[i]), "chunk_count"@) == 0,
    )
}

proof fn lemma_empties(statuses: Seq<IndexStatus>, n: nat)
    requires
        n <= statuses.len(),
    ensures
        count_empty(statuses.take(n as int)) == unfilled(statuses, n).len(),
        empties(statuses.take(n as int)).len() == unfilled(statuses, n).len(),
        forall|p: int|
            0 <= p < unfilled(statuses, n).len() ==> 0 <= (#[trigger] unfilled(statuses, n)[p]) < n
                && empties(statuses.take(n as int))[p].0 == statuses[unfilled(statuses, n)[p]].name@
                && empties(statuses.take(n as int))[p].1 == text_or_blank(
                status_of(statuses[unfilled(statuses, n)[p]]),
                "root_path"@,
            ),
    decreases n,
{
    reveal(Seq::filter);
    assert(Seq::new(0, |i: int| i) =~= Seq::empty());
    if n == 0 {
        assert(statuses.take(0) =~= Seq::empty());
    } else {
        let m = (n - 1) as nat;
        lemma_empties(statuses, m);
        assert(statuses.take(n as int).drop_last() =~= statuses.take(m as int));
        assert(statuses.take(n as int).last() == statuses[m as int]);
        assert(Seq::new(n, |i: int| i).drop_last() =~= Seq::new(m, |i: int| i));
        assert(Seq::new(n, |i: int| i).last() == m);
        let old = unfilled(statuses, m);
        let pos = unfilled(statuses, n);
        let before = empties(statuses.take(m as int));
        let after = empties(statuses.take(n as int));
        assert forall|p: int| 0 <= p < pos.len() implies 0 <= (#[trigger] pos[p]) < n && after[p].0
            == statuses[pos[p]].name@ && after[p].1 == text_or_blank(
            status_of(statuses[pos[p]]),
            "root_path"@,
        ) by {
            if p < old.len() {
                assert(pos[p] == old[p]);
                assert(after[p] == before[p]);
            }
        }
    }
}

/// The indexes offered for repair are those that report no chunks, in order, each by
/// its name and root; the summary counts as many.
pub proof fn indexes_without_chunks_are_offered(
    statuses: Seq<IndexStatus>,
    list: Seq<EmptyIndex>,
)
    requires
        empty_views(list) == empties(statuses),
    ensures
        count_empty(statuses) == unfilled(statuses, statuses.len()).len(),
        list.len() == unfilled(statuses, statuses.len()).len(),
        forall|p: int|
            0 <= p < list.len() ==> (#[trigger] list[p]).name@ == statuses[unfilled(
                statuses,
                statuses.len(),
            )[p]].name@ && list[p].root_path@ == text_or_blank(
                status_of(statuses[unfilled(statuses, statuses.len())[p]]),
                "root_path"@,
            ),
{
    let n = statuses.len();
    lemma_empties(statuses, n);
    assert(statuses.take(n as int) =~= statuses);
    assert(empty_views(list).len() == list.len());
    assert forall|p: int| 0 <= p < list.len() implies (#[trigger] list[p]).name@
        == statuses[unfilled(statuses, n)[p]].name@ && list[p].root_path@ == text_or_blank(
        status_of(statuses[unfilled(statuses, n)[p]]),
        "root_path"@,
    ) by {
        assert(empty_views(list)[p] == (list[p].name@, list[p].root_path@));
        let i = unfilled(statuses, n)[p];
        assert(0 <= i < n);
    }
}

/// The summary passes where no index is empty and warns where one is; it begins with
/// the number of indexes and names that of the empty ones.
pub proof fn summary_tells_whether_indexes_are_empty(total: nat, empty: nat)
    ensures
        summary_check(total, empty) is Passed <==> empty == 0,
        summary_check(total, empty) is Warn <==> empty > 0,
        decimal(total).is_prefix_of(message_of(summary_check(total, empty))),
        empty > 0 ==> stands_in(decimal(empty), message_of(summary_check(total, empty))),
{
    let s = message_of(summary_check(total, empty));
    let head = decimal(total) + " index"@ + (if total == 1 {
        ""@
    } else {
        "es"@
    }) + " registered, "@;
    assert(decimal(total) =~= s.subrange(0, decimal(total).len() as int));
    if empty > 0 {
        let tail = " "@ + (if empty == 1 {
            "has"@
        } else {
            "have"@
        }) + " no chunks yet:"@;
        assert(s =~= head + decimal(empty) + tail);
        middle_stands_in_the_whole(head, decimal(empty), tail);
    }
}

/// The row on an index begins with its name, ends its figure with the number of
/// chunks, marks it as filled where there are any, and gives its root.
pub proof fn rows_tell_of_their_index(row: BreakdownRow, s: IndexStatus)
    requires
        breaks_down(row, s),
    ensures
        s.name@.is_prefix_of(row.name@),
        row.name@.len() >= 16,
        row.filled <==> number_at(status_of(s), "chunk_count"@) > 0,
        ({
            let n = grouped(decimal(number_at(status_of(s), "chunk_count"@) as nat));
            &&& row.chunks@.len() >= 12
            &&& row.chunks@.skip(row.chunks@.len() - n.len()) == n
        }),
        text_at(status_of(s), "root_path"@) matches Some(root) ==> row.root@ == root,
        text_at(status_of(s), "root_path"@) is None ==> row.root@.len() == 0,
{
    assert(s.name@ =~= row.name@.subrange(0, s.name@.len() as int));
    let n = grouped(decimal(number_at(status_of(s), "chunk_count"@) as nat));
    assert(row.chunks@.skip(row.chunks@.len() - n.len()) =~= n);
}

/// A checkup consists of six checks: of the daemon, the model cache, the data
/// directory, the lock file, the indexes and the port, in this order.
pub proof fn checkup_has_every_check(p: DoctorProbes, checks: Seq<CheckResult>)
    requires
        check_views(checks) == all_checks(p),
    ensures
        checks.len() == 6,
        checks[0] is Passed <==> p.health is Some,
        checks[0] is Error <==> p.health is None,
        checks[1] is Passed <==> p.model_there,
        checks[1] is Warn <==> !p.model_there,
        checks[2] is Passed <==> p.data_dir_there && p.data_dir_writable,
        checks[2] is Error <==> p.data_dir_there && !p.data_dir_writable,
        checks[3] is Passed <==> !p.lock.there || (lock_pid(p.lock) is Some && p.lock.alive
            && p.health is Some),
        checks[3] is Warn <==> !(checks[3] is Passed),
        checks[4] is Passed <==> p.health is Some && p.names@.len() > 0 && count_empty(
            by_name(p.statuses@),
        ) == 0,
        checks[4] is Warn <==> !(checks[4] is Passed),
        checks[5] is Passed <==> p.port_reachable,
        checks[5] is Error <==> !p.port_reachable,
        looks_into_indexes(p) <==> p.health is Some && p.names@.len() > 0,
{
    let views = check_views(checks);
    assert(views.len() == checks.len());
    assert(views[0] == checks[0]@ && views[1] == checks[1]@ && views[2] == checks[2]@);
    assert(views[3] == checks[3]@ && views[4] == checks[4]@ && views[5] == checks[5]@);
    lock_check_tells_whether_it_is_held(p.data_dir@, p.lock, p.health is Some);
    assert(indexes_check(p) is Passed || indexes_check(p) is Warn);
}

// ---------------------------------------------------------------------------
// Status
// ---------------------------------------------------------------------------

/// The positions of the first `n` items that are texts, in ascending order.
pub open spec fn text_positions(items: Seq<JsonTree>, n: nat) -> Seq<int> {
    Seq::new(n, |i: int| i).filter(|i: int| items[i] is Text)
}

proof fn lemma_texts_among(items: Seq<JsonTree>, n: nat)
    requires
        n <= items.len(),
    ensures
        texts_among(items.take(n as int)).len() == text_positions(items, n).len(),
        forall|p: int|
            0 <= p < text_positions(items, n).len() ==> 0 <= (#[trigger] text_positions(
                items,
                n,
            )[p]) < n && items[text_positions(items, n)[p]] == JsonTree::Text(
                texts_among(items.take(n as int))[p],
            ),
    decreases n,
{
    reveal(Seq::filter);
    assert(Seq::new(0, |i: int| i) =~= Seq::empty());
    if n == 0 {
        assert(items.take(0) =~= Seq::empty());
    } else {
        let m = (n - 1) as nat;
        lemma_texts_among(items, m);
        assert(items.take(n as int).drop_last() =~= items.take(m as int));
        assert(items.take(n as int).last() == items[m as int]);
        assert(Seq::new(n, |i: int| i).drop_last() =~= Seq::new(m, |i: int| i));
        assert(Seq::new(n, |i: int| i).last() == m);
        let old = text_positions(items, m);
        let pos = text_positions(items, n);
        let before = texts_among(items.take(m as int));
        let after = texts_among(items.take(n as int));
        assert forall|p: int| 0 <= p < pos.len() implies 0 <= (#[trigger] pos[p]) < n
            && items[pos[p]] == JsonTree::Text(after[p]) by {
            if p < old.len() {
                assert(pos[p] == old[p]);
                assert(after[p] == before[p]);
            }
        }
    }
}

/// The names in a list of indexes are the texts of the list, in order; an answer
/// without such a list names none.
pub proof fn every_name_is_read(v: JsonTree, items: Seq<JsonTree>)
    requires
        member(v, "indexes"@) == Some(JsonTree::Array(items)),
    ensures
        names_in(v).len() == text_positions(items, items.len()).len(),
        forall|p: int|
            0 <= p < names_in(v).len() ==> items[text_positions(items, items.len())[p]]
                == JsonTree::Text(#[trigger] names_in(v)[p]),
        answer_tree(None) == JsonTree::Object(Map::empty()),
{
    lemma_texts_among(items, items.len());
    assert(items.take(items.len() as int) =~= items);
    assert forall|p: int| 0 <= p < names_in(v).len() implies items[text_positions(
        items,
        items.len(),
    )[p]] == JsonTree::Text(#[trigger] names_in(v)[p]) by {
        let i = text_positions(items, items.len())[p];
        assert(0 <= i < items.len());
    }
}

/// Every index is shown, and the names come in the order of a dictionary.
pub proof fn indexes_go_by_name(statuses: Seq<IndexStatus>, a: int, b: int)
    requires
        statuses.len() <= usize::MAX,
        0 <= a < b < statuses.len(),
    ensures
        by_name(statuses).len() == statuses.len(),
        by_name(statuses)[a].name@ == by_name(statuses)[b].name@ || comes_before(
            by_name(statuses)[a].name@,
            by_name(statuses)[b].name@,
        ),
        by_name(statuses).contains(statuses[a]),
{
    crate::commands::status::every_index_is_shown_by_name(statuses);
    let x = by_name(statuses)[a].name@;
    let y = by_name(statuses)[b].name@;
    let none = Seq::<u64>::empty();
    assert(text_key(x) + none =~= text_key(x));
    assert(text_key(y) + none =~= text_key(y));
    keys_are_ordered_by_text(x, none, y, none);
}

/// The JSON report says that the daemon runs, where, in which version, and lists the
/// indexes in order, each by its name and with what the daemon said of it.
pub proof fn status_can_be_read_by_its_members(
    base: Seq<char>,
    health: Seq<char>,
    indexes: Seq<IndexStatus>,
    i: int,
)
    requires
        0 <= i < indexes.len(),
    ensures
        text_at(status_tree(base, health, indexes), "daemon"@) == Some("running"@),
        text_at(status_tree(base, health, indexes), "url"@) == Some(base),
        member(parsed_or_empty(health), "version"@) matches Some(v) ==> member(
            status_tree(base, health, indexes),
            "version"@,
        ) == Some(v),
        member(parsed_or_empty(health), "version"@) is None ==> member(
            status_tree(base, health, indexes),
            "version"@,
        ) == Some(JsonTree::Null),
        member(status_tree(base, health, indexes), "indexes"@) matches Some(JsonTree::Array(items))
            && items.len() == indexes.len() && text_at(items[i], "id"@) == Some(indexes[i].name@)
            && member(items[i], "status"@) == Some(status_of(indexes[i])),
{
    reveal_strlit("daemon");
    reveal_strlit("url");
    reveal_strlit("version");
    reveal_strlit("indexes");
    reveal_strlit("id");
    reveal_strlit("status");
    assert("daemon"@.len() == 6 && "url"@.len() == 3);
    assert("version"@.len() == 7 && "version"@[0] == 'v');
    assert("indexes"@.len() == 7 && "indexes"@[0] == 'i');
    assert("id"@.len() == 2 && "status"@.len() == 6);
    let items = indexes.map_values(|s: IndexStatus| index_tree(s));
    assert(member(status_tree(base, health, indexes), "indexes"@) == Some(JsonTree::Array(items)));
    assert(items[i] == index_tree(indexes[i]));
}

/// The row of the status table begins with the name of the index, ends its figure
/// with the number of chunks, and gives the root where it is known.
pub proof fn status_rows_tell_of_their_index(row: StatusRow, s: IndexStatus)
    requires
        shows(row, s),
    ensures
        s.name@.is_prefix_of(row.name@),
        row.name@.len() >= 16,
        ({
            let n = grouped(decimal(number_at(status_of(s), "chunk_count"@) as nat));
            &&& row.chunks@.len() >= 12
            &&& row.chunks@.skip(row.chunks@.len() - n.len()) == n
        }),
        text_at(status_of(s), "root_path"@) matches Some(root) ==> (root.len() > 0 ==> (
        row.root matches Some(t) && t@ == root)),
        text_at(status_of(s), "root_path"@) is None ==> row.root is None,
{
    assert(s.name@ =~= row.name@.subrange(0, s.name@.len() as int));
    let n = grouped(decimal(number_at(status_of(s), "chunk_count"@) as nat));
    assert(row.chunks@.skip(row.chunks@.len() - n.len()) =~= n);
}

/// What is known of an index is what the daemon answered, as far as that is JSON; of
/// an index without a proper answer nothing is known.
pub proof fn answers_are_taken_as_they_are(s: IndexStatus, health: Seq<char>)
    ensures
        s.body matches Some(b) ==> (parsed_json(b@) matches Ok(v) ==> status_of(s) == v),
        s.body is None ==> member(status_of(s), "chunk_count"@) is None && number_at(
            status_of(s),
            "chunk_count"@,
        ) == 0,
        has_no_chunks(s) <==> number_at(status_of(s), "chunk_count"@) == 0,
        parsed_json(health) matches Ok(v) ==> (text_at(v, "version"@) matches Some(t) ==> version_in(
            health,
        ) == t),
        parsed_json(health) is Err ==> version_in(health) == "?"@,
{
}

} // verus!
