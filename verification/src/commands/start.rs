//! Starting the daemon.
use crate::commands::format::nearest;
use crate::engine::registry::{IndexHandle, IndexId, IndexRegistry};
use crate::paths::{join_path, join_path_spec};
use crate::text::{
    chars_of, concat, copy_texts, decimal, decimal_text, same_text, string_of, texts, trim,
    trim_spec,
};
use vstd::prelude::*;
use vstd::string::*;

verus! {

// ---------------------------------------------------------------------------
// Whether to start
// ---------------------------------------------------------------------------

/// The memory that a machine has to have, in megabytes.
pub const MIN_RAM_MB: u64 = 16_384;

/// How long daemons that were told to stop may take, in milliseconds.
pub const REAP_TIMEOUT_MS: u64 = 3_000;

/// Gigabytes with one digit after the point.
pub open spec fn gigabytes_text(mb: nat) -> Seq<char> {
    let tenths = nearest(mb * 10, 1024);
    decimal(tenths / 10) + "."@ + decimal(tenths % 10)
}

/// Gigabytes with one digit after the point.
pub fn fmt_gigabytes(mb: u64) -> (s: String)
    requires
        mb < MIN_RAM_MB,
    ensures
        s@ == gigabytes_text(mb as nat),
{
    let scaled: u64 = mb * 10;
    let whole: u64 = scaled / 1024;
    let rest: u64 = scaled % 1024;
    let tenths: u64 = if rest < 512 || (rest == 512 && whole % 2 == 0) {
        whole
    } else {
        whole + 1
    };
    let mut s = decimal_text(tenths / 10);
    s.append(".");
    s.append(decimal_text(tenths % 10).as_str());
    s
}

/// What to do to start the daemon.
pub enum StartStep {
    /// The machine has too little memory.
    Refuse(String),
    /// A daemon runs already, which is no failure.
    AlreadyRunning(String),
    /// Stop the daemons that no lock file names, then run.
    Reap(String),
    /// Run.
    Run,
}

/// What to do to start the daemon, given the memory of the machine, the process
/// that the lock file names if it is alive, and the daemons found otherwise.
pub fn handle_start(total_ram_mb: u64, running_pid: Option<u32>, orphans: &Vec<u32>) -> (step:
    StartStep)
    ensures
        match step {
            StartStep::Refuse(s) => total_ram_mb < MIN_RAM_MB && s@
                == "error: trusty-search requires at least 16 GB of RAM.\nDetected: "@ + decimal(
                total_ram_mb as nat,
            ) + " MB ("@ + gigabytes_text(total_ram_mb as nat)
                + " GB)\nIndexing large codebases on machines with less memory is not supported."@,
            StartStep::AlreadyRunning(s) => total_ram_mb >= MIN_RAM_MB && (running_pid matches Some(
                pid,
            ) && s@ == "trusty-search daemon already running (pid "@ + decimal(pid as nat)
                + "); nothing to do"@),
            StartStep::Reap(s) => total_ram_mb >= MIN_RAM_MB && running_pid is None && orphans.len()
                > 0 && s@ == "found "@ + decimal(orphans.len() as nat)
                + " existing trusty-search daemon process(es) not tracked by lockfile — stopping them first"@,
            StartStep::Run => total_ram_mb >= MIN_RAM_MB && running_pid is None && orphans.len()
                == 0,
        },
{
    if total_ram_mb < MIN_RAM_MB {
        let mut s =
            "error: trusty-search requires at least 16 GB of RAM.\nDetected: ".to_owned();
        s.append(decimal_text(total_ram_mb).as_str());
        s.append(" MB (");
        s.append(fmt_gigabytes(total_ram_mb).as_str());
        s.append(
            " GB)\nIndexing large codebases on machines with less memory is not supported.",
        );
        return StartStep::Refuse(s);
    }
    if let Some(pid) = running_pid {
        let mut s = "trusty-search daemon already running (pid ".to_owned();
        s.append(decimal_text(pid as u64).as_str());
        s.append("); nothing to do");
        return StartStep::AlreadyRunning(s);
    }
    if orphans.len() > 0 {
        let mut s = concat("found ", decimal_text(orphans.len() as u64).as_str());
        s.append(
            " existing trusty-search daemon process(es) not tracked by lockfile — stopping them first",
        );
        return StartStep::Reap(s);
    }
    StartStep::Run
}

/// Whether waiting for daemons that were told to stop is over.
pub fn reap_is_over(any_alive: bool, waited_ms: u64) -> (over: bool)
    ensures
        over == (!any_alive || waited_ms >= REAP_TIMEOUT_MS),
{
    !any_alive || waited_ms >= REAP_TIMEOUT_MS
}

/// The processes that are still alive, in order.
pub open spec fn still_alive(pids: Seq<u32>, alive: Seq<bool>) -> Seq<u32>
    decreases pids.len(),
{
    if pids.len() == 0 {
        Seq::empty()
    } else if alive[pids.len() - 1] {
        still_alive(pids.drop_last(), alive).push(pids.last())
    } else {
        still_alive(pids.drop_last(), alive)
    }
}

/// The processes that did not stop and are killed.
pub fn stragglers(pids: &Vec<u32>, alive: &Vec<bool>) -> (left: Vec<u32>)
    requires
        alive.len() == pids.len(),
    ensures
        left@ == still_alive(pids@, alive@),
{
    let mut left: Vec<u32> = Vec::new();
    assert(pids@.take(0) =~= Seq::empty());
    for i in 0..pids.len()
        invariant
            alive.len() == pids.len(),
            left@ == still_alive(pids@.take(i as int), alive@),
    {
        assert(pids@.take(i + 1).drop_last() =~= pids@.take(i as int));
        assert(pids@.take(i + 1).last() == pids@[i as int]);
        if alive[i] {
            left.push(pids[i]);
        }
    }
    assert(pids@.take(pids.len() as int) =~= pids@);
    left
}

/// How the daemon ended.
pub enum DaemonEnd {
    /// It was stopped.
    Stopped,
    /// Another one holds the lock file of the given path.
    AlreadyRunning(String),
    /// It failed.
    Failed(String),
}

/// What to tell of the end of the daemon; an error where it failed. That
/// another one runs is no failure.
pub fn daemon_ended(end: &DaemonEnd) -> (r: Result<Option<String>, String>)
    ensures
        match (*end, r) {
            (DaemonEnd::Stopped, Ok(None)) => true,
            (DaemonEnd::AlreadyRunning(p), Ok(Some(s))) => s@
                == "trusty-search daemon already running (lock at "@ + p@ + "); nothing to do"@,
            (DaemonEnd::Failed(e), Err(s)) => s@ == "daemon failed: "@ + e@,
            _ => false,
        },
{
    match end {
        DaemonEnd::Stopped => Ok(None),
        DaemonEnd::AlreadyRunning(p) => {
            let mut s = "trusty-search daemon already running (lock at ".to_owned();
            s.append(p.as_str());
            s.append("); nothing to do");
            Ok(Some(s))
        },
        DaemonEnd::Failed(e) => Err(concat("daemon failed: ", e.as_str())),
    }
}

// ---------------------------------------------------------------------------
// Restoring indexes
// ---------------------------------------------------------------------------

/// An index as it is recorded.
pub struct IndexEntry {
    pub id: String,
    pub root_path: String,
    pub include_paths: Vec<String>,
    pub exclude_globs: Vec<String>,
    pub extensions: Vec<String>,
    pub domain_terms: Vec<String>,
}

/// The subtrees to walk: blank entries and `.` stand for the whole root and are
/// left out, the others are taken below the root.
pub open spec fn subtrees(root: Seq<char>, paths: Seq<Seq<char>>) -> Seq<Seq<char>>
    decreases paths.len(),
{
    if paths.len() == 0 {
        Seq::empty()
    } else {
        let before = subtrees(root, paths.drop_last());
        let p = trim_spec(paths.last());
        if p.len() == 0 || p == "."@ {
            before
        } else {
            before.push(join_path_spec(root, p))
        }
    }
}

/// The subtrees to walk.
pub fn resolve_subtrees(root: &str, paths: &Vec<String>) -> (r: Vec<String>)
    ensures
        texts(r@) == subtrees(root@, texts(paths@)),
{
    let mut r: Vec<String> = Vec::new();
    let ghost all = texts(paths@);
    assert(all.take(0) =~= Seq::empty());
    assert(texts(r@) =~= Seq::empty());
    for i in 0..paths.len()
        invariant
            all == texts(paths@),
            texts(r@) == subtrees(root@, all.take(i as int)),
    {
        assert(all.take(i + 1).drop_last() =~= all.take(i as int));
        assert(all.take(i + 1).last() == paths@[i as int]@);
        let ghost before = texts(r@);
        let p = trim(paths[i].as_str());
        if !p.as_str().is_empty() && !same_text(p.as_str(), ".") {
            let joined = join_path(root, p.as_str());
            r.push(joined);
            assert(texts(r@) =~= before.push(joined@));
        }
    }
    assert(all.take(paths.len() as int) =~= all);
    r
}

/// The text without the dots that it starts with.
pub open spec fn without_dots(s: Seq<char>) -> Seq<char>
    decreases s.len(),
{
    if s.len() > 0 && s[0] == '.' {
        without_dots(s.skip(1))
    } else {
        s
    }
}

fn strip_dots(s: &str) -> (r: String)
    ensures
        r@ == without_dots(s@),
{
    let v = chars_of(s);
    let mut i: usize = 0;
    assert(v@.skip(0) =~= v@);
    while i < v.len() && v[i] == '.'
        invariant
            i <= v.len(),
            without_dots(v@.skip(i as int)) == without_dots(v@),
        decreases v.len() - i,
    {
        assert(v@.skip(i as int).skip(1) =~= v@.skip(i + 1));
        i = i + 1;
    }
    assert(v@.subrange(i as int, v.len() as int) =~= v@.skip(i as int));
    string_of(&v, i, v.len())
}

/// The extensions to keep, without dots before them; blank ones are left out.
pub open spec fn kept_extensions(list: Seq<Seq<char>>) -> Seq<Seq<char>>
    decreases list.len(),
{
    if list.len() == 0 {
        Seq::empty()
    } else {
        let before = kept_extensions(list.drop_last());
        let e = without_dots(list.last());
        if e.len() == 0 {
            before
        } else {
            before.push(e)
        }
    }
}

/// The extensions to keep.
pub fn resolve_extensions(list: &Vec<String>) -> (r: Vec<String>)
    ensures
        texts(r@) == kept_extensions(texts(list@)),
{
    let mut r: Vec<String> = Vec::new();
    let ghost all = texts(list@);
    assert(all.take(0) =~= Seq::empty());
    assert(texts(r@) =~= Seq::empty());
    for i in 0..list.len()
        invariant
            all == texts(list@),
            texts(r@) == kept_extensions(all.take(i as int)),
    {
        assert(all.take(i + 1).drop_last() =~= all.take(i as int));
        assert(all.take(i + 1).last() == list@[i as int]@);
        let ghost before = texts(r@);
        let e = strip_dots(list[i].as_str());
        if !e.as_str().is_empty() {
            let ghost view = e@;
            r.push(e);
            assert(texts(r@) =~= before.push(view));
        }
    }
    assert(all.take(list.len() as int) =~= all);
    r
}

/// Whether the handle is what the entry records.
pub open spec fn is_restored(h: IndexHandle, e: IndexEntry) -> bool {
    &&& h.id@ == e.id@
    &&& h.root_path@ == e.root_path@
    &&& texts(h.include_paths@) == subtrees(e.root_path@, texts(e.include_paths@))
    &&& texts(h.exclude_globs@) == texts(e.exclude_globs@)
    &&& texts(h.extensions@) == kept_extensions(texts(e.extensions@))
    &&& texts(h.domain_terms@) == texts(e.domain_terms@)
}

/// The handle that an entry records.
pub fn restored_handle(e: &IndexEntry) -> (h: IndexHandle)
    ensures
        is_restored(h, *e),
{
    IndexHandle {
        id: IndexId::new(e.id.as_str()),
        root_path: e.root_path.clone(),
        include_paths: resolve_subtrees(e.root_path.as_str(), &e.include_paths),
        exclude_globs: copy_texts(&e.exclude_globs),
        extensions: resolve_extensions(&e.extensions),
        domain_terms: copy_texts(&e.domain_terms),
    }
}

/// Whether one of the first `n` entries records the index.
pub open spec fn records(entries: Seq<IndexEntry>, n: int, id: Seq<char>) -> bool {
    exists|i: int| 0 <= i < n && (#[trigger] entries[i]).id@ == id
}

/// Whether `after` holds the indexes of `before` and, of the first `n` entries,
/// every index that was not there, as its first entry records it.
pub open spec fn is_restoration(
    before: Map<Seq<char>, IndexHandle>,
    after: Map<Seq<char>, IndexHandle>,
    entries: Seq<IndexEntry>,
    n: int,
) -> bool {
    &&& forall|id: Seq<char>| #[trigger]
        after.contains_key(id) <==> before.contains_key(id) || records(entries, n, id)
    &&& forall|id: Seq<char>| #[trigger] before.contains_key(id) ==> after[id] == before[id]
    &&& forall|i: int|
        0 <= i < n && !before.contains_key((#[trigger] entries[i]).id@) && !records(
            entries,
            i,
            entries[i].id@,
        ) ==> is_restored(after[entries[i].id@], entries[i])
}

/// Registers the recorded indexes; one that is there already stays as it is.
pub fn restore_indexes(registry: &mut IndexRegistry, entries: &Vec<IndexEntry>)
    ensures
        is_restoration(old(registry)@, final(registry)@, entries@, entries.len() as int),
{
    let ghost before = registry@;
    for i in 0..entries.len()
        invariant
            before == old(registry)@,
            is_restoration(before, registry@, entries@, i as int),
    {
        let ghost now = registry@;
        let id = IndexId::new(entries[i].id.as_str());
        let ghost key = entries@[i as int].id@;
        proof {
            assert forall|k: Seq<char>| records(entries@, i + 1, k) == (records(
                entries@,
                i as int,
                k,
            ) || k == key) by {
                if k == key {
                    assert(entries@[i as int].id@ == k);
                }
                if records(entries@, i as int, k) {
                    let j = choose|j: int| 0 <= j < i && (#[trigger] entries@[j]).id@ == k;
                    assert(0 <= j < i + 1);
                }
            }
        }
        if registry.get(&id).is_none() {
            let handle = restored_handle(&entries[i]);
            registry.register(handle);
        }
        proof {
            assert forall|j: int|
                0 <= j < i + 1 && !before.contains_key((#[trigger] entries@[j]).id@) && !records(
                    entries@,
                    j,
                    entries@[j].id@,
                ) implies is_restored(registry@[entries@[j].id@], entries@[j]) by {
                if j < i {
                    assert(records(entries@, i as int, entries@[j].id@));
                    assert(now.contains_key(entries@[j].id@));
                    assert(is_restored(now[entries@[j].id@], entries@[j]));
                } else {
                    assert(!now.contains_key(key));
                }
            }
        }
    }
}

// ---------------------------------------------------------------------------
// Laws
// ---------------------------------------------------------------------------

/// After the recorded indexes are restored, each of them is registered, and an
/// index that was live before is untouched.
pub proof fn restored_indexes_are_registered(
    before: Map<Seq<char>, IndexHandle>,
    after: Map<Seq<char>, IndexHandle>,
    entries: Seq<IndexEntry>,
    i: int,
    live: Seq<char>,
)
    requires
        is_restoration(before, after, entries, entries.len() as int),
        0 <= i < entries.len(),
        before.contains_key(live),
    ensures
        after.contains_key(entries[i].id@),
        after.contains_key(live),
        after[live] == before[live],
{
    assert(records(entries, entries.len() as int, entries[i].id@));
}

/// Restoring once more changes nothing.
pub proof fn restoring_again_changes_nothing(
    before: Map<Seq<char>, IndexHandle>,
    after: Map<Seq<char>, IndexHandle>,
    again: Map<Seq<char>, IndexHandle>,
    entries: Seq<IndexEntry>,
)
    requires
        is_restoration(before, after, entries, entries.len() as int),
        is_restoration(after, again, entries, entries.len() as int),
    ensures
        again == after,
{
    assert forall|id: Seq<char>| again.contains_key(id) == after.contains_key(id) by {
        if again.contains_key(id) && !after.contains_key(id) {
            assert(records(entries, entries.len() as int, id));
            assert(after.contains_key(id));
        }
    }
    assert(again.dom() =~= after.dom());
    assert forall|id: Seq<char>| #[trigger] after.contains_key(id) implies again[id]
        == after[id] by {}
    assert(again =~= after);
}

} // verus!
