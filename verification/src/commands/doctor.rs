//! Finding out what is wrong with an installation.
//!
//! Each check looks at what was found out about one thing; together they are
//! made in a fixed order.
use crate::commands::daemon_utils::{pid_from, pid_in};
use crate::commands::format::{bytes_text, fmt_bytes, pad_right, padded_after};
use crate::commands::status::{
    by_name, chunk_cell, chunks_shown, name_order, reported_version, status_of, status_value,
    text_or_blank, version_in, IndexStatus,
};
use crate::engine::memguard::opt_str;
use crate::json::{number_at, read_number, read_text};
use crate::paths::{join_path, join_path_spec, parent, parent_spec};
use crate::text::{concat, contains_text, decimal, decimal_text, has_text, texts};
use vstd::prelude::*;
use vstd::string::*;

verus! {

// ---------------------------------------------------------------------------
// Results
// ---------------------------------------------------------------------------

/// What a check came to.
#[derive(Debug, Clone, PartialEq)]
pub enum CheckResult {
    /// Nothing is wrong.
    Passed(String),
    /// Something is odd, but things work.
    Warn(String),
    /// Something does not work.
    Error(String),
}

/// What a check came to, in characters.
#[verifier::ext_equal]
pub enum CheckView {
    Passed(Seq<char>),
    Warn(Seq<char>),
    Error(Seq<char>),
}

impl View for CheckResult {
    type V = CheckView;

    open spec fn view(&self) -> CheckView {
        match self {
            CheckResult::Passed(s) => CheckView::Passed(s@),
            CheckResult::Warn(s) => CheckView::Warn(s@),
            CheckResult::Error(s) => CheckView::Error(s@),
        }
    }
}

impl CheckResult {
    /// Whether something does not work.
    pub fn is_error(&self) -> (r: bool)
        ensures
            r == (self@ is Error),
    {
        match self {
            CheckResult::Error(_) => true,
            _ => false,
        }
    }

    /// Whether something is odd.
    pub fn is_warn(&self) -> (r: bool)
        ensures
            r == (self@ is Warn),
    {
        match self {
            CheckResult::Warn(_) => true,
            _ => false,
        }
    }
}

/// The results of a list of checks, in characters.
pub open spec fn check_views(checks: Seq<CheckResult>) -> Seq<CheckView> {
    checks.map_values(|c: CheckResult| c@)
}

// ---------------------------------------------------------------------------
// The daemon
// ---------------------------------------------------------------------------

/// Whether the daemon runs, and its version, from its answer about itself.
pub fn probe_daemon_health(health: Option<&str>) -> (r: (bool, String))
    ensures
        r.0 == health is Some,
        r.1@ == (match health {
            Some(h) => version_in(h@),
            None => Seq::empty(),
        }),
{
    match health {
        Some(h) => (true, reported_version(h)),
        None => (false, String::new()),
    }
}

/// The check of the daemon.
pub open spec fn daemon_check(running: bool, base: Seq<char>, version: Seq<char>) -> CheckView {
    if running {
        CheckView::Passed("Daemon running at "@ + base + " (v"@ + version + ")"@)
    } else {
        CheckView::Error("Daemon not running — run `trusty-search start`"@)
    }
}

/// The check of the daemon.
pub fn check_daemon_running(running: bool, base: &str, version: &str) -> (c: CheckResult)
    ensures
        c@ == daemon_check(running, base@, version@),
{
    if running {
        let mut s = "Daemon running at ".to_owned();
        s.append(base);
        s.append(" (v");
        s.append(version);
        s.append(")");
        CheckResult::Passed(s)
    } else {
        CheckResult::Error("Daemon not running — run `trusty-search start`".to_owned())
    }
}

/// The check of the daemon's port.
pub open spec fn port_check(port: u16, reachable: bool) -> CheckView {
    if reachable {
        CheckView::Passed("Port "@ + decimal(port as nat) + " is reachable"@)
    } else {
        CheckView::Error("Port "@ + decimal(port as nat) + " is not reachable"@)
    }
}

/// The check of the daemon's port.
pub fn check_port_reachable(port: u16, reachable: bool) -> (c: CheckResult)
    ensures
        c@ == port_check(port, reachable),
{
    let mut s = concat("Port ", decimal_text(port as u64).as_str());
    if reachable {
        s.append(" is reachable");
        CheckResult::Passed(s)
    } else {
        s.append(" is not reachable");
        CheckResult::Error(s)
    }
}

// ---------------------------------------------------------------------------
// The model cache
// ---------------------------------------------------------------------------

/// The model cache in the directory for local data.
pub open spec fn data_cache(data_local: Seq<char>) -> Seq<char> {
    join_path_spec(join_path_spec(data_local, "trusty-search"@), ".fastembed_cache"@)
}

/// The model cache next to the program.
pub open spec fn program_cache(exe: Seq<char>) -> Seq<char> {
    join_path_spec(
        match parent_spec(exe) {
            Some(dir) => dir,
            None => "."@,
        },
        ".fastembed_cache"@,
    )
}

/// Where models are cached: where the setting says; else in the directory for
/// local data or next to the program, whichever exists first; else in the
/// working directory.
pub open spec fn cache_dir(
    setting: Option<Seq<char>>,
    data_local: Option<Seq<char>>,
    exe: Option<Seq<char>>,
    existing: Seq<String>,
) -> Seq<char> {
    match setting {
        Some(s) => s,
        None => if data_local is Some && has_text(existing, data_cache(data_local->Some_0)) {
            data_cache(data_local->Some_0)
        } else if exe is Some && has_text(existing, program_cache(exe->Some_0)) {
            program_cache(exe->Some_0)
        } else {
            ".fastembed_cache"@
        },
    }
}

/// The places at which the model cache is looked for, in order.
pub fn cache_places(data_local: Option<&str>, exe: Option<&str>) -> (places: Vec<String>)
    ensures
        texts(places@) == (match data_local {
            Some(d) => seq![data_cache(d@)],
            None => Seq::empty(),
        }) + (match exe {
            Some(e) => seq![program_cache(e@)],
            None => Seq::empty(),
        }),
{
    let mut places: Vec<String> = Vec::new();
    if let Some(d) = data_local {
        places.push(
            join_path(join_path(d, "trusty-search").as_str(), ".fastembed_cache"),
        );
    }
    if let Some(e) = exe {
        let dir = match parent(e) {
            Some(dir) => dir,
            None => ".".to_owned(),
        };
        places.push(join_path(dir.as_str(), ".fastembed_cache"));
    }
    assert(texts(places@) =~= (match data_local {
        Some(d) => seq![data_cache(d@)],
        None => Seq::empty(),
    }) + (match exe {
        Some(e) => seq![program_cache(e@)],
        None => Seq::empty(),
    }));
    places
}

/// Where models are cached, given the directories that exist.
pub fn fastembed_cache_dir(
    setting: Option<&str>,
    data_local: Option<&str>,
    exe: Option<&str>,
    existing: &Vec<String>,
) -> (dir: String)
    ensures
        dir@ == cache_dir(opt_str(setting), opt_str(data_local), opt_str(exe), existing@),
{
    if let Some(s) = setting {
        return s.to_owned();
    }
    let places = cache_places(data_local, exe);
    let ghost named = texts(places@);
    for i in 0..places.len()
        invariant
            setting is None,
            named == texts(places@),
            named == (match data_local {
                Some(d) => seq![data_cache(d@)],
                None => Seq::empty(),
            }) + (match exe {
                Some(e) => seq![program_cache(e@)],
                None => Seq::empty(),
            }),
            forall|j: int| 0 <= j < i ==> !has_text(existing@, #[trigger] named[j]),
    {
        assert(named[i as int] == places@[i as int]@);
        if contains_text(existing, places[i].as_str()) {
            proof {
                if data_local is Some && i > 0 {
                    assert(named[0] == data_cache(data_local->Some_0@));
                }
            }
            return places[i].clone();
        }
    }
    proof {
        if data_local is Some {
            assert(named[0] == data_cache(data_local->Some_0@));
        }
        if exe is Some {
            assert(named.last() == program_cache(exe->Some_0@));
            assert(named[named.len() - 1] == named.last());
        }
    }
    ".fastembed_cache".to_owned()
}

/// Where in the cache the model is.
pub fn model_dir(cache: &str) -> (dir: String)
    ensures
        dir@ == join_path_spec(cache@, "models--Qdrant--all-MiniLM-L6-v2-onnx"@),
{
    join_path(cache, "models--Qdrant--all-MiniLM-L6-v2-onnx")
}

/// The check of the model cache.
pub open spec fn cache_check(
    cache: Seq<char>,
    model_there: bool,
    cache_there: bool,
    size: u64,
) -> CheckView {
    if model_there {
        CheckView::Passed(
            "Model cache: "@ + cache + " ("@ + bytes_text(size as nat) + ", "@
                + "all-MiniLM-L6-v2"@ + ")"@,
        )
    } else if cache_there {
        CheckView::Warn(
            "Model cache directory exists ("@ + cache + ") but "@ + "all-MiniLM-L6-v2"@
                + " not found — will download on first start"@,
        )
    } else {
        CheckView::Warn("Model not cached — will download on first `trusty-search start`"@)
    }
}

/// The check of the model cache.
pub fn check_model_cache(cache: &str, model_there: bool, cache_there: bool, size: u64) -> (c:
    CheckResult)
    ensures
        c@ == cache_check(cache@, model_there, cache_there, size),
{
    if model_there {
        let mut s = "Model cache: ".to_owned();
        s.append(cache);
        s.append(" (");
        s.append(fmt_bytes(size).as_str());
        s.append(", ");
        s.append("all-MiniLM-L6-v2");
        s.append(")");
        CheckResult::Passed(s)
    } else if cache_there {
        let mut s = "Model cache directory exists (".to_owned();
        s.append(cache);
        s.append(") but ");
        s.append("all-MiniLM-L6-v2");
        s.append(" not found — will download on first start");
        CheckResult::Warn(s)
    } else {
        CheckResult::Warn(
            "Model not cached — will download on first `trusty-search start`".to_owned(),
        )
    }
}

// ---------------------------------------------------------------------------
// The data directory and the lock file
// ---------------------------------------------------------------------------

/// The daemon's data directory.
pub fn doctor_data_dir(data_local: Option<&str>) -> (dir: String)
    ensures
        dir@ == (match data_local {
            Some(d) => join_path_spec(d@, "trusty-search"@),
            None => "~/.local/share/trusty-search"@,
        }),
{
    match data_local {
        Some(d) => join_path(d, "trusty-search"),
        None => "~/.local/share/trusty-search".to_owned(),
    }
}

/// The check of the data directory.
pub open spec fn dir_check(dir: Seq<char>, there: bool, writable: bool) -> CheckView {
    if !there {
        CheckView::Warn(
            "Data directory "@ + dir + " does not exist (will be created on first start)"@,
        )
    } else if writable {
        CheckView::Passed("Data directory: "@ + dir + " (writable)"@)
    } else {
        CheckView::Error("Data directory "@ + dir + " is not writable"@)
    }
}

/// The check of the data directory.
pub fn check_data_dir(dir: &str, there: bool, writable: bool) -> (c: CheckResult)
    ensures
        c@ == dir_check(dir@, there, writable),
{
    if !there {
        let mut s = concat("Data directory ", dir);
        s.append(" does not exist (will be created on first start)");
        CheckResult::Warn(s)
    } else if writable {
        let mut s = concat("Data directory: ", dir);
        s.append(" (writable)");
        CheckResult::Passed(s)
    } else {
        let mut s = concat("Data directory ", dir);
        s.append(" is not writable");
        CheckResult::Error(s)
    }
}

/// The lock file in the data directory.
pub open spec fn lock_in(data_dir: Seq<char>) -> Seq<char> {
    join_path_spec(data_dir, "daemon.lock"@)
}

/// What is known of the lock file.
pub struct LockProbe {
    /// Whether there is one.
    pub there: bool,
    /// Its content, where it could be read.
    pub content: Option<String>,
    /// Whether the process that it names is alive.
    pub alive: bool,
}

/// The process that the lock file names.
pub open spec fn lock_pid(lock: LockProbe) -> Option<u32> {
    pid_in(crate::text::opt_text(lock.content))
}

/// The process that the lock file names.
pub fn locked_pid(lock: &LockProbe) -> (pid: Option<u32>)
    ensures
        pid == lock_pid(*lock),
{
    match &lock.content {
        Some(s) => pid_from(Some(s.as_str())),
        None => pid_from(None),
    }
}

/// The check of the lock file.
pub open spec fn lock_check(data_dir: Seq<char>, lock: LockProbe, running: bool) -> CheckView {
    if !lock.there {
        CheckView::Passed("Lock file: healthy (no stale lock)"@)
    } else {
        match lock_pid(lock) {
            None => CheckView::Warn(
                "Lock file exists but contains no valid PID ("@ + lock_in(data_dir) + ")"@,
            ),
            Some(pid) => if !lock.alive {
                CheckView::Warn(
                    "Stale lock file: PID "@ + decimal(pid as nat) + " is not running ("@ + lock_in(
                        data_dir,
                    ) + ")"@,
                )
            } else if running {
                CheckView::Passed(
                    "Lock file: healthy (PID "@ + decimal(pid as nat) + " is running)"@,
                )
            } else {
                CheckView::Warn(
                    "Lock file contains PID "@ + decimal(pid as nat)
                        + " which is alive but /health failed"@,
                )
            },
        }
    }
}

/// The check of the lock file.
pub fn check_lock_file(data_dir: &str, lock: &LockProbe, running: bool) -> (c: CheckResult)
    ensures
        c@ == lock_check(data_dir@, *lock, running),
{
    if !lock.there {
        return CheckResult::Passed("Lock file: healthy (no stale lock)".to_owned());
    }
    let path = join_path(data_dir, "daemon.lock");
    let pid: u32 = match locked_pid(lock) {
        Some(pid) => pid,
        None => {
            let mut s = concat("Lock file exists but contains no valid PID (", path.as_str());
            s.append(")");
            return CheckResult::Warn(s);
        },
    };
    let number = decimal_text(pid as u64);
    if !lock.alive {
        let mut s = concat("Stale lock file: PID ", number.as_str());
        s.append(" is not running (");
        s.append(path.as_str());
        s.append(")");
        return CheckResult::Warn(s);
    }
    if running {
        let mut s = concat("Lock file: healthy (PID ", number.as_str());
        s.append(" is running)");
        CheckResult::Passed(s)
    } else {
        let mut s = concat("Lock file contains PID ", number.as_str());
        s.append(" which is alive but /health failed");
        CheckResult::Warn(s)
    }
}

/// What to do about a lock file.
#[derive(Debug, Clone, Copy, PartialEq, Eq, Structural)]
pub enum LockFix {
    /// There is none.
    Nothing,
    /// Remove it: no live process holds it.
    Remove,
    /// Leave it: a live process holds it.
    Keep,
}

/// What to do about a lock file: it stays where it names a live process.
pub open spec fn lock_fix(lock: LockProbe) -> LockFix {
    if !lock.there {
        LockFix::Nothing
    } else if lock_pid(lock) is Some && lock.alive {
        LockFix::Keep
    } else {
        LockFix::Remove
    }
}

/// What to do about a lock file.
pub fn fix_stale_lock(lock: &LockProbe) -> (fix: LockFix)
    ensures
        fix == lock_fix(*lock),
{
    if !lock.there {
        return LockFix::Nothing;
    }
    match locked_pid(lock) {
        Some(_) => if lock.alive {
            LockFix::Keep
        } else {
            LockFix::Remove
        },
        None => LockFix::Remove,
    }
}

/// What to tell of a lock file that was to be removed.
pub fn lock_removed(data_dir: &str, error: Option<&str>) -> (s: String)
    ensures
        s@ == (match error {
            None => "Removed stale lock file "@ + lock_in(data_dir@),
            Some(e) => "Could not remove lock file "@ + lock_in(data_dir@) + ": "@ + e@,
        }),
{
    let path = join_path(data_dir, "daemon.lock");
    match error {
        None => concat("Removed stale lock file ", path.as_str()),
        Some(e) => {
            let mut s = concat("Could not remove lock file ", path.as_str());
            s.append(": ");
            s.append(e);
            s
        },
    }
}

// ---------------------------------------------------------------------------
// The indexes
// ---------------------------------------------------------------------------

/// An index without chunks.
#[derive(Debug)]
pub struct EmptyIndex {
    pub name: String,
    pub root_path: String,
}

/// Whether the daemon reports no chunks for the index.
pub open spec fn has_no_chunks(s: IndexStatus) -> bool {
    number_at(status_of(s), "chunk_count"@) == 0
}

/// How many of the indexes have no chunks.
pub open spec fn count_empty(statuses: Seq<IndexStatus>) -> nat
    decreases statuses.len(),
{
    if statuses.len() == 0 {
        0
    } else {
        count_empty(statuses.drop_last()) + (if has_no_chunks(statuses.last()) {
            1nat
        } else {
            0nat
        })
    }
}

/// The summary of the indexes.
pub open spec fn summary_check(total: nat, empty: nat) -> CheckView {
    let head = decimal(total) + " index"@ + (if total == 1 {
        ""@
    } else {
        "es"@
    }) + " registered, "@;
    if empty == 0 {
        CheckView::Passed(head + "all have chunks"@)
    } else {
        CheckView::Warn(
            head + decimal(empty) + " "@ + (if empty == 1 {
                "has"@
            } else {
                "have"@
            }) + " no chunks yet:"@,
        )
    }
}

/// The summary of the indexes.
pub fn summarize_indexes(total: usize, empty: usize) -> (c: CheckResult)
    ensures
        c@ == summary_check(total as nat, empty as nat),
{
    let mut s = decimal_text(total as u64);
    s.append(" index");
    s.append(if total == 1 {
        ""
    } else {
        "es"
    });
    s.append(" registered, ");
    if empty == 0 {
        s.append("all have chunks");
        CheckResult::Passed(s)
    } else {
        s.append(decimal_text(empty as u64).as_str());
        s.append(" ");
        s.append(if empty == 1 {
            "has"
        } else {
            "have"
        });
        s.append(" no chunks yet:");
        CheckResult::Warn(s)
    }
}

/// One row on an index.
pub struct BreakdownRow {
    /// Whether the index has chunks.
    pub filled: bool,
    /// The name, padded.
    pub name: String,
    /// The number of chunks, padded.
    pub chunks: String,
    /// The root.
    pub root: String,
}

/// Whether the row tells of the index.
pub open spec fn breaks_down(row: BreakdownRow, s: IndexStatus) -> bool {
    &&& row.filled == !has_no_chunks(s)
    &&& row.name@ == padded_after(s.name@, 16)
    &&& row.chunks@ == chunk_cell(status_of(s))
    &&& row.root@ == text_or_blank(status_of(s), "root_path"@)
}

/// The names and roots of the indexes without chunks, in order.
pub open spec fn empties(statuses: Seq<IndexStatus>) -> Seq<(Seq<char>, Seq<char>)>
    decreases statuses.len(),
{
    if statuses.len() == 0 {
        Seq::empty()
    } else {
        let before = empties(statuses.drop_last());
        let s = statuses.last();
        if has_no_chunks(s) {
            before.push((s.name@, text_or_blank(status_of(s), "root_path"@)))
        } else {
            before
        }
    }
}

/// The names and roots, in characters.
pub open spec fn empty_views(list: Seq<EmptyIndex>) -> Seq<(Seq<char>, Seq<char>)> {
    list.map_values(|e: EmptyIndex| (e.name@, e.root_path@))
}

/// One row for each index, by name, and the indexes that have no chunks.
pub fn index_breakdown(statuses: &Vec<IndexStatus>) -> (r: (Vec<BreakdownRow>, Vec<EmptyIndex>))
    ensures
        r.0.len() == statuses.len(),
        by_name(statuses@).len() == statuses.len(),
        forall|k: int|
            0 <= k < r.0.len() ==> breaks_down(#[trigger] r.0@[k], by_name(statuses@)[k]),
        empty_views(r.1@) == empties(by_name(statuses@)),
{
    let order = name_order(statuses);
    let ghost all = by_name(statuses@);
    let mut rows: Vec<BreakdownRow> = Vec::new();
    let mut list: Vec<EmptyIndex> = Vec::new();
    assert(all.take(0) =~= Seq::empty());
    assert(empty_views(list@) =~= Seq::empty());
    for k in 0..order.len()
        invariant
            all == by_name(statuses@),
            all.len() == order.len(),
            rows.len() == k,
            forall|j: int| 0 <= j < order.len() ==> #[trigger] order@[j] < statuses.len(),
            forall|j: int|
                0 <= j < order.len() ==> #[trigger] all[j] == statuses@[order@[j] as int],
            forall|j: int| 0 <= j < k ==> breaks_down(#[trigger] rows@[j], all[j]),
            empty_views(list@) == empties(all.take(k as int)),
    {
        let at: usize = order[k];
        let s = &statuses[at];
        assert(all[k as int] == *s);
        assert(all.take(k + 1).drop_last() =~= all.take(k as int));
        assert(all.take(k + 1).last() == *s);
        let v = status_value(s);
        let chunks: u64 = read_number(&v, "chunk_count");
        let root = match read_text(&v, "root_path") {
            Some(t) => t.to_owned(),
            None => String::new(),
        };
        let ghost before = empty_views(list@);
        if chunks == 0 {
            let e = EmptyIndex { name: s.name.clone(), root_path: root.clone() };
            let ghost view = (e.name@, e.root_path@);
            list.push(e);
            assert(empty_views(list@) =~= before.push(view));
        }
        rows.push(
            BreakdownRow {
                filled: chunks != 0,
                name: pad_right(s.name.as_str(), 16),
                chunks: chunks_shown(&v),
                root,
            },
        );
    }
    assert(all.take(order.len() as int) =~= all);
    (rows, list)
}

// ---------------------------------------------------------------------------
// All checks
// ---------------------------------------------------------------------------

/// What was found out about an installation.
pub struct DoctorProbes {
    /// The daemon's URL.
    pub base: String,
    /// The daemon's answer about itself, where it gave a proper one.
    pub health: Option<String>,
    /// The daemon's port.
    pub port: u16,
    /// Whether the port is reachable.
    pub port_reachable: bool,
    /// Where models are cached.
    pub cache: String,
    pub model_there: bool,
    pub cache_there: bool,
    pub cache_size: u64,
    /// The daemon's data directory.
    pub data_dir: String,
    pub data_dir_there: bool,
    pub data_dir_writable: bool,
    /// The lock file.
    pub lock: LockProbe,
    /// The names of the indexes.
    pub names: Vec<String>,
    /// What the daemon says of each.
    pub statuses: Vec<IndexStatus>,
}

/// What the checks came to.
pub struct DoctorReport {
    /// The results, in order.
    pub checks: Vec<CheckResult>,
    /// The rows on the indexes.
    pub rows: Vec<BreakdownRow>,
    /// The indexes without chunks.
    pub empty_indexes: Vec<EmptyIndex>,
}

/// Whether the indexes are looked into: a running daemon has some.
pub open spec fn looks_into_indexes(p: DoctorProbes) -> bool {
    p.health is Some && p.names.len() > 0
}

/// The check of the indexes.
pub open spec fn indexes_check(p: DoctorProbes) -> CheckView {
    if p.health is None {
        CheckView::Warn("Indexes: skipped (daemon not running)"@)
    } else if p.names.len() == 0 {
        CheckView::Warn(
            "No indexes registered — run `trusty-search index` to add a project"@,
        )
    } else {
        summary_check(p.statuses.len() as nat, count_empty(by_name(p.statuses@)))
    }
}

/// The results of all checks, in order: the daemon, the model cache, the data
/// directory, the lock file, the indexes, the port.
pub open spec fn all_checks(p: DoctorProbes) -> Seq<CheckView> {
    seq![
        daemon_check(
            p.health is Some,
            p.base@,
            match p.health {
                Some(h) => version_in(h@),
                None => Seq::empty(),
            },
        ),
        cache_check(p.cache@, p.model_there, p.cache_there, p.cache_size),
        dir_check(p.data_dir@, p.data_dir_there, p.data_dir_writable),
        lock_check(p.data_dir@, p.lock, p.health is Some),
        indexes_check(p),
        port_check(p.port, p.port_reachable),
    ]
}

/// Makes all checks.
pub fn run_doctor_checks(p: &DoctorProbes) -> (report: DoctorReport)
    ensures
        check_views(report.checks@) == all_checks(*p),
        looks_into_indexes(*p) ==> {
            &&& report.rows.len() == p.statuses.len()
            &&& forall|k: int|
                0 <= k < report.rows.len() ==> breaks_down(
                    #[trigger] report.rows@[k],
                    by_name(p.statuses@)[k],
                )
            &&& empty_views(report.empty_indexes@) == empties(by_name(p.statuses@))
        },
        !looks_into_indexes(*p) ==> report.rows.len() == 0 && report.empty_indexes.len() == 0,
{
    let (running, version) = match &p.health {
        Some(h) => probe_daemon_health(Some(h.as_str())),
        None => probe_daemon_health(None),
    };
    let mut checks: Vec<CheckResult> = Vec::new();
    checks.push(check_daemon_running(running, p.base.as_str(), version.as_str()));
    checks.push(
        check_model_cache(p.cache.as_str(), p.model_there, p.cache_there, p.cache_size),
    );
    checks.push(check_data_dir(p.data_dir.as_str(), p.data_dir_there, p.data_dir_writable));
    checks.push(check_lock_file(p.data_dir.as_str(), &p.lock, running));
    let mut rows: Vec<BreakdownRow> = Vec::new();
    let mut empty_indexes: Vec<EmptyIndex> = Vec::new();
    if !running {
        checks.push(CheckResult::Warn("Indexes: skipped (daemon not running)".to_owned()));
    } else if p.names.len() == 0 {
        checks.push(
            CheckResult::Warn(
                "No indexes registered — run `trusty-search index` to add a project".to_owned(),
            ),
        );
    } else {
        let (found, list) = index_breakdown(&p.statuses);
        proof {
            every_empty_index_is_listed(by_name(p.statuses@));
            assert(empty_views(list@).len() == list.len());
        }
        checks.push(summarize_indexes(p.statuses.len(), list.len()));
        rows = found;
        empty_indexes = list;
    }
    checks.push(check_port_reachable(p.port, p.port_reachable));
    assert(check_views(checks@) =~= all_checks(*p));
    DoctorReport { checks, rows, empty_indexes }
}

// ---------------------------------------------------------------------------
// Laws
// ---------------------------------------------------------------------------

/// A lock file is removed only where its check warns of it; one that the check
/// finds healthy stays.
pub proof fn only_suspect_locks_are_removed(data_dir: Seq<char>, lock: LockProbe, running: bool)
    ensures
        lock_fix(lock) == LockFix::Remove ==> lock_check(data_dir, lock, running) is Warn,
        lock_check(data_dir, lock, running) is Passed ==> lock_fix(lock) != LockFix::Remove,
{
}

/// As many indexes are offered for repair as the summary counts.
pub proof fn every_empty_index_is_listed(statuses: Seq<IndexStatus>)
    ensures
        empties(statuses).len() == count_empty(statuses),
    decreases statuses.len(),
{
    if statuses.len() > 0 {
        every_empty_index_is_listed(statuses.drop_last());
    }
}

} // verus!
