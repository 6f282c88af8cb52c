//! Taking over projects that another search tool has indexed.
use crate::commands::daemon_utils::{two_below, Reply};
use crate::commands::format::{pad_right, padded_after};
use crate::json::{as_truth, bool_of, get_member, member, parse_or_empty, parsed_or_empty};
use crate::paths::{
    file_name, file_name_spec, join_path, lemma_parent_is_shorter, parent, parent_spec,
};
use crate::sorting::{key_views, sort_slots, sorted, sorts};
use crate::text::{
    concat, contains_text, decimal, decimal_text, has_text, opt_text, replace_char,
    replace_char_spec, same_text, texts,
};
use vstd::prelude::*;
use vstd::string::*;

verus! {

// ---------------------------------------------------------------------------
// Finding projects
// ---------------------------------------------------------------------------

/// The configuration file of a project in `dir`.
pub open spec fn config_of(dir: Seq<char>) -> Seq<char> {
    two_below(dir, ".mcp-vector-search"@, "config.json"@)
}

/// The configuration files of a directory and of each directory above it, the
/// nearest first.
pub open spec fn candidates(dir: Seq<char>) -> Seq<Seq<char>>
    decreases dir.len(),
{
    match parent_spec(dir) {
        Some(up) => if up.len() < dir.len() {
            seq![config_of(dir)] + candidates(up)
        } else {
            seq![config_of(dir)]
        },
        None => seq![config_of(dir)],
    }
}

/// The places at which the configuration file of a directory is looked for.
pub fn mvs_candidates(start: &str) -> (paths: Vec<String>)
    ensures
        texts(paths@) == candidates(start@),
{
    let mut paths: Vec<String> = Vec::new();
    let mut dir = start.to_owned();
    assert(texts(paths@) + candidates(dir@) =~= candidates(start@));
    loop
        invariant
            texts(paths@) + candidates(dir@) == candidates(start@),
        decreases dir@.len(),
    {
        let config = join_path(join_path(dir.as_str(), ".mcp-vector-search").as_str(), "config.json");
        let ghost before = texts(paths@);
        paths.push(config);
        assert(texts(paths@) =~= before.push(config_of(dir@)));
        match parent(dir.as_str()) {
            Some(up) => {
                proof {
                    lemma_parent_is_shorter(dir@);
                    assert(before + (seq![config_of(dir@)] + candidates(up@)) =~= texts(paths@)
                        + candidates(up@));
                }
                dir = up;
            },
            None => {
                assert(texts(paths@) =~= before + seq![config_of(dir@)]);
                return paths;
            },
        }
    }
}

/// The first of `places` that is one of the files that exist.
pub open spec fn first_existing(places: Seq<Seq<char>>, existing: Seq<String>) -> Option<Seq<char>>
    decreases places.len(),
{
    if places.len() == 0 {
        None
    } else if has_text(existing, places[0]) {
        Some(places[0])
    } else {
        first_existing(places.skip(1), existing)
    }
}

/// The nearest configuration file of a directory, given the files that exist.
pub fn find_mvs_config(start: &str, existing: &Vec<String>) -> (r: Option<String>)
    ensures
        opt_text(r) == first_existing(candidates(start@), existing@),
{
    let places = mvs_candidates(start);
    let ghost all = texts(places@);
    assert(all.skip(0) =~= all);
    for i in 0..places.len()
        invariant
            all == texts(places@),
            all == candidates(start@),
            first_existing(all.skip(i as int), existing@) == first_existing(all, existing@),
    {
        assert(all.skip(i as int)[0] == places@[i as int]@);
        if contains_text(existing, places[i].as_str()) {
            return Some(places[i].clone());
        }
        assert(all.skip(i as int).skip(1) =~= all.skip(i + 1));
    }
    assert(all.skip(places.len() as int) =~= Seq::empty());
    None
}

/// The directories that no project is looked for in.
pub open spec fn skipped_names() -> Seq<Seq<char>> {
    seq![
        "node_modules"@,
        ".git"@,
        "target"@,
        "Library"@,
        ".cache"@,
        ".cargo"@,
        ".rustup"@,
        ".npm"@,
        ".pnpm"@,
        ".pyenv"@,
        ".nvm"@,
        "venv"@,
        ".venv"@,
        "__pycache__"@,
    ]
}

/// Whether a directory of this name is passed over.
pub fn skips_directory(name: &str) -> (skips: bool)
    ensures
        skips == skipped_names().contains(name@),
{
    let ghost names = skipped_names();
    let skips = same_text(name, "node_modules") || same_text(name, ".git") || same_text(
        name,
        "target",
    ) || same_text(name, "Library") || same_text(name, ".cache") || same_text(name, ".cargo")
        || same_text(name, ".rustup") || same_text(name, ".npm") || same_text(name, ".pnpm")
        || same_text(name, ".pyenv") || same_text(name, ".nvm") || same_text(name, "venv")
        || same_text(name, ".venv") || same_text(name, "__pycache__");
    proof {
        assert(names[0] == "node_modules"@ && names[1] == ".git"@ && names[2] == "target"@
            && names[3] == "Library"@ && names[4] == ".cache"@ && names[5] == ".cargo"@ && names[6]
            == ".rustup"@ && names[7] == ".npm"@ && names[8] == ".pnpm"@ && names[9] == ".pyenv"@
            && names[10] == ".nvm"@ && names[11] == "venv"@ && names[12] == ".venv"@ && names[13]
            == "__pycache__"@);
        if names.contains(name@) {
            let i = choose|i: int| 0 <= i < names.len() && names[i] == name@;
            assert(0 <= i < 14);
        }
    }
    skips
}

/// Whether the path is a configuration file in its place.
pub open spec fn names_config(path: Seq<char>) -> bool {
    file_name_spec(path) == Some("config.json"@) && (match parent_spec(path) {
        Some(dir) => file_name_spec(dir) == Some(".mcp-vector-search"@),
        None => false,
    })
}

/// Whether the path is a configuration file in its place.
pub fn is_mvs_config(path: &str) -> (r: bool)
    ensures
        r == names_config(path@),
{
    let named = match file_name(path) {
        Some(n) => same_text(n.as_str(), "config.json"),
        None => false,
    };
    let placed = match parent(path) {
        Some(dir) => match file_name(dir.as_str()) {
            Some(n) => same_text(n.as_str(), ".mcp-vector-search"),
            None => false,
        },
        None => false,
    };
    named && placed
}

/// The configuration files among the paths of a walk, in order.
pub fn find_all_mvs_configs(walked: &Vec<String>) -> (configs: Vec<String>)
    ensures
        texts(configs@) == texts(walked@).filter(|p: Seq<char>| names_config(p)),
{
    let mut configs: Vec<String> = Vec::new();
    let ghost all = texts(walked@);
    let ghost keep = |p: Seq<char>| names_config(p);
    proof {
        reveal_with_fuel(Seq::<_>::filter, 1);
        assert(all.take(0) =~= Seq::empty());
        assert(texts(configs@) =~= all.take(0).filter(keep));
    }
    for i in 0..walked.len()
        invariant
            all == texts(walked@),
            keep == (|p: Seq<char>| names_config(p)),
            texts(configs@) == all.take(i as int).filter(keep),
    {
        let ghost before = texts(configs@);
        proof {
            reveal_with_fuel(Seq::<_>::filter, 2);
            assert(all.take(i + 1).drop_last() =~= all.take(i as int));
            assert(all.take(i + 1).last() == walked@[i as int]@);
        }
        if is_mvs_config(walked[i].as_str()) {
            configs.push(walked[i].clone());
            assert(texts(configs@) =~= before.push(walked@[i as int]@));
        }
    }
    assert(all.take(walked.len() as int) =~= all);
    configs
}

// ---------------------------------------------------------------------------
// Reading a project's configuration
// ---------------------------------------------------------------------------

/// The text in lower case, as `str::to_lowercase` makes it.
pub uninterp spec fn lowercase(s: Seq<char>) -> Seq<char>;

/// `str::to_lowercase`: the text in lower case, by the Unicode rules.
#[verifier::external_body]
fn to_lowercase(s: &str) -> (r: String)
    ensures
        r@ == lowercase(s@),
{
    s.to_lowercase()
}

/// The name of an index, from the last part of its root in lower case.
pub fn hyphenated(lowered: &str) -> (name: String)
    ensures
        name@ == replace_char_spec(lowered@, ' ', "-"@),
{
    replace_char(lowered, ' ', "-")
}

/// The name under which a project is indexed: the last part of its root in
/// lower case, with hyphens for spaces.
pub open spec fn project_name(root: Seq<char>) -> Seq<char> {
    match file_name_spec(root) {
        Some(base) => replace_char_spec(lowercase(base), ' ', "-"@),
        None => "project"@,
    }
}

/// What reading a configuration file gave.
pub enum ConfigRead {
    /// The file could not be read.
    Unreadable(String),
    /// Its content has no project root.
    Malformed(String),
    /// The project root.
    Root(String),
}

/// The root of a project and the name to index it under.
pub fn parse_mvs_config(config_path: &str, read: &ConfigRead) -> (r: Result<
    (String, String),
    String,
>)
    ensures
        match (*read, r) {
            (ConfigRead::Unreadable(e), Err(s)) => s@ == "read "@ + config_path@ + ": "@ + e@,
            (ConfigRead::Malformed(e), Err(s)) => s@ == "parse "@ + config_path@ + ": "@ + e@,
            (ConfigRead::Root(root), Ok((path, name))) => path@ == root@ && name@ == project_name(
                root@,
            ),
            _ => false,
        },
{
    match read {
        ConfigRead::Unreadable(e) => {
            let mut s = "read ".to_owned();
            s.append(config_path);
            s.append(": ");
            s.append(e.as_str());
            Err(s)
        },
        ConfigRead::Malformed(e) => {
            let mut s = "parse ".to_owned();
            s.append(config_path);
            s.append(": ");
            s.append(e.as_str());
            Err(s)
        },
        ConfigRead::Root(root) => {
            let name = match file_name(root.as_str()) {
                Some(base) => hyphenated(to_lowercase(base.as_str()).as_str()),
                None => "project".to_owned(),
            };
            Ok((root.clone(), name))
        },
    }
}

// ---------------------------------------------------------------------------
// Converting one project
// ---------------------------------------------------------------------------

/// What became of a project.
#[derive(Debug)]
pub enum ConvertStatus {
    Queued,
    AlreadyRegistered,
    DryRun,
    Failed(String),
}

/// A project and what became of it.
#[derive(Debug)]
pub struct ConvertResult {
    pub name: String,
    pub path: String,
    pub status: ConvertStatus,
}

/// What became of a project whose configuration cannot be used.
pub fn unusable(config_path: &str, error: &str) -> (r: ConvertResult)
    ensures
        r.name@ == config_path@,
        r.path@ == config_path@,
        r.status matches ConvertStatus::Failed(s) && s@ == "parse: "@ + error@,
{
    ConvertResult {
        name: config_path.to_owned(),
        path: config_path.to_owned(),
        status: ConvertStatus::Failed(concat("parse: ", error)),
    }
}

/// Why there is nothing to convert.
pub fn no_config(cwd: &str) -> (s: String)
    ensures
        s@ == "No .mcp-vector-search/config.json found in "@ + cwd@ + " or any parent directory"@,
{
    let mut s = concat("No .mcp-vector-search/config.json found in ", cwd);
    s.append(" or any parent directory");
    s
}

/// What is told before all projects are converted.
pub fn convert_intro(total: usize, concurrency: usize, dry_run: bool) -> (s: String)
    ensures
        s@ == (if total == 0 {
            "No mcp-vector-search projects found."@
        } else if dry_run {
            "Dry run — would convert "@ + decimal(total as nat) + " projects:"@
        } else {
            "Found "@ + decimal(total as nat) + " projects. Converting (max "@ + decimal(
                concurrency as nat,
            ) + " concurrent)…"@
        }),
{
    if total == 0 {
        return "No mcp-vector-search projects found.".to_owned();
    }
    if dry_run {
        let mut s = concat("Dry run — would convert ", decimal_text(total as u64).as_str());
        s.append(" projects:");
        return s;
    }
    let mut s = concat("Found ", decimal_text(total as u64).as_str());
    s.append(" projects. Converting (max ");
    s.append(decimal_text(concurrency as u64).as_str());
    s.append(" concurrent)…");
    s
}

/// What is settled before the daemon is asked: a dry run, and a failure where
/// there is no client to ask it with.
pub fn convert_start(dry_run: bool, client_error: Option<&str>) -> (r: Option<ConvertStatus>)
    ensures
        match r {
            Some(ConvertStatus::DryRun) => dry_run,
            Some(ConvertStatus::Failed(s)) => !dry_run && (client_error matches Some(e) && s@
                == "failed to build HTTP client: "@ + e@),
            Some(_) => false,
            None => !dry_run && client_error is None,
        },
{
    if dry_run {
        return Some(ConvertStatus::DryRun);
    }
    match client_error {
        Some(e) => Some(ConvertStatus::Failed(concat("failed to build HTTP client: ", e))),
        None => None,
    }
}

/// Whether the daemon's answer says that the index was there before. An answer
/// that does not say so means a new index.
pub open spec fn existed_before(body: Seq<char>) -> bool {
    match member(parsed_or_empty(body), "created"@) {
        Some(m) => bool_of(m) == Some(false),
        None => false,
    }
}

/// What the reply to the registration means: whether the index was there
/// before, or why it failed.
pub fn after_create(reply: &Reply) -> (r: Result<bool, ConvertStatus>)
    ensures
        match (*reply, r) {
            (Reply::Answered { status, success, body }, Ok(existed)) => success && existed
                == existed_before(body@),
            (Reply::Answered { status, success, body }, Err(ConvertStatus::Failed(s))) => !success
                && s@ == "create returned "@ + status@,
            (Reply::Unreachable(e), Err(ConvertStatus::Failed(s))) => s@ == "create error: "@ + e@,
            _ => false,
        },
{
    match reply {
        Reply::Answered { status, success, body } => if *success {
            let v = parse_or_empty(body.as_str());
            let created = match get_member(&v, "created") {
                Some(m) => match as_truth(m) {
                    Some(b) => b,
                    None => true,
                },
                None => true,
            };
            Ok(!created)
        } else {
            Err(ConvertStatus::Failed(concat("create returned ", status.as_str())))
        },
        Reply::Unreachable(e) => Err(ConvertStatus::Failed(concat("create error: ", e.as_str()))),
    }
}

/// What became of a registered project, by the reply to the reindex.
pub fn after_reindex(existed: bool, reply: &Reply) -> (status: ConvertStatus)
    ensures
        match (*reply, status) {
            (
                Reply::Answered { status, success, body },
                ConvertStatus::AlreadyRegistered,
            ) => success && existed,
            (Reply::Answered { status, success, body }, ConvertStatus::Queued) => success
                && !existed,
            (Reply::Answered { status, success, body }, ConvertStatus::Failed(s)) => !success && s@
                == "reindex returned "@ + status@,
            (Reply::Unreachable(e), ConvertStatus::Failed(s)) => s@ == "reindex error: "@ + e@,
            _ => false,
        },
{
    match reply {
        Reply::Answered { status, success, body } => if *success {
            if existed {
                ConvertStatus::AlreadyRegistered
            } else {
                ConvertStatus::Queued
            }
        } else {
            ConvertStatus::Failed(concat("reindex returned ", status.as_str()))
        },
        Reply::Unreachable(e) => ConvertStatus::Failed(concat("reindex error: ", e.as_str())),
    }
}

/// Where the requests for a project go.
pub fn convert_urls(base: &str, name: &str) -> (urls: (String, String))
    ensures
        urls.0@ == base@ + "/indexes"@,
        urls.1@ == base@ + "/indexes/"@ + name@ + "/reindex"@,
{
    let create = concat(base, "/indexes");
    let mut reindex = concat(base, "/indexes/");
    reindex.append(name);
    reindex.append("/reindex");
    (create, reindex)
}

// ---------------------------------------------------------------------------
// Telling what happened
// ---------------------------------------------------------------------------

/// What to tell of a single project that was converted.
pub fn single_outcome(status: &ConvertStatus) -> (r: Result<String, String>)
    requires
        !(status is DryRun),
    ensures
        match (*status, r) {
            (ConvertStatus::Queued, Ok(s)) => s@
                == "Queued for reindex — watch progress with: trusty-search status"@,
            (ConvertStatus::AlreadyRegistered, Ok(s)) => s@
                == "Already registered — reindex queued"@,
            (ConvertStatus::Failed(e), Err(s)) => s@ == "Conversion failed: "@ + e@,
            _ => false,
        },
{
    match status {
        ConvertStatus::Failed(e) => Err(concat("Conversion failed: ", e.as_str())),
        ConvertStatus::AlreadyRegistered => Ok("Already registered — reindex queued".to_owned()),
        _ => Ok("Queued for reindex — watch progress with: trusty-search status".to_owned()),
    }
}

/// One line of the table of projects.
pub struct ConvertLine {
    /// The project's number and how many there are.
    pub prefix: String,
    /// The mark before the name, where there is one.
    pub mark: Option<String>,
    /// The project's name, padded.
    pub name: String,
    /// The project's root.
    pub path: String,
    /// What to add behind it.
    pub note: Option<String>,
}

/// Whether the line tells of the project.
pub open spec fn tells(line: ConvertLine, number: usize, total: usize, r: ConvertResult) -> bool {
    &&& line.prefix@ == "["@ + decimal(number as nat) + "/"@ + decimal(total as nat) + "]"@
    &&& line.name@ == padded_after(r.name@, 24)
    &&& line.path@ == r.path@
    &&& opt_text(line.mark) == (match r.status {
        ConvertStatus::Queued => Some("✓"@),
        ConvertStatus::AlreadyRegistered => Some("↻"@),
        ConvertStatus::DryRun => None,
        ConvertStatus::Failed(_) => Some("✗"@),
    })
    &&& opt_text(line.note) == (match r.status {
        ConvertStatus::AlreadyRegistered => Some("(already registered, reindexing)"@),
        ConvertStatus::Failed(e) => Some("("@ + e@ + ")"@),
        _ => None,
    })
}

/// One line of the table of projects.
pub fn convert_line(number: usize, total: usize, r: &ConvertResult) -> (line: ConvertLine)
    ensures
        tells(line, number, total, *r),
{
    let mut prefix = "[".to_owned();
    prefix.append(decimal_text(number as u64).as_str());
    prefix.append("/");
    prefix.append(decimal_text(total as u64).as_str());
    prefix.append("]");
    let (mark, note): (Option<String>, Option<String>) = match &r.status {
        ConvertStatus::Queued => (Some("✓".to_owned()), None),
        ConvertStatus::AlreadyRegistered => (
            Some("↻".to_owned()),
            Some("(already registered, reindexing)".to_owned()),
        ),
        ConvertStatus::DryRun => (None, None),
        ConvertStatus::Failed(e) => {
            let mut s = "(".to_owned();
            s.append(e.as_str());
            s.append(")");
            (Some("✗".to_owned()), Some(s))
        },
    };
    ConvertLine {
        prefix,
        mark,
        name: pad_right(r.name.as_str(), 24),
        path: r.path.clone(),
        note,
    }
}

/// The sort key of a numbered result.
pub open spec fn number_keys(results: Seq<(usize, ConvertResult)>) -> Seq<Seq<u64>> {
    results.map_values(|r: (usize, ConvertResult)| seq![r.0 as u64])
}

/// The table of projects: one line each, by number, whatever the order in which
/// they were done.
pub fn convert_table(results: &Vec<(usize, ConvertResult)>, total: usize) -> (lines: Vec<
    ConvertLine,
>)
    ensures
        sorts(number_keys(results@), sorted(number_keys(results@))),
        lines.len() == results.len(),
        forall|k: int|
            0 <= k < lines.len() ==> {
                let at = sorted(number_keys(results@))[k] as int;
                tells(#[trigger] lines@[k], results@[at].0, total, results@[at].1)
            },
{
    let mut keys: Vec<Vec<u64>> = Vec::new();
    for i in 0..results.len()
        invariant
            key_views(keys@) =~= number_keys(results@).take(i as int),
    {
        let mut key: Vec<u64> = Vec::new();
        key.push(results[i].0 as u64);
        assert(key@ =~= seq![results@[i as int].0 as u64]);
        let ghost before = key_views(keys@);
        keys.push(key);
        assert(key_views(keys@) =~= before.push(key@));
    }
    assert(key_views(keys@) =~= number_keys(results@));
    let order = sort_slots(&keys);
    let mut lines: Vec<ConvertLine> = Vec::new();
    for k in 0..order.len()
        invariant
            order@ == sorted(number_keys(results@)),
            sorts(number_keys(results@), order@),
            number_keys(results@).len() == results.len(),
            lines.len() == k,
            forall|j: int|
                0 <= j < k ==> tells(
                    #[trigger] lines@[j],
                    results@[order@[j] as int].0,
                    total,
                    results@[order@[j] as int].1,
                ),
    {
        let at: usize = order[k];
        lines.push(convert_line(results[at].0, total, &results[at].1));
    }
    lines
}

/// How many projects came to what.
#[derive(Debug, Clone, Copy, PartialEq, Eq, Structural)]
pub struct ConvertTally {
    pub queued: usize,
    pub already: usize,
    pub dry: usize,
    pub failed: usize,
}

/// How many results have a status that `is` accepts.
pub open spec fn count_status(
    results: Seq<(usize, ConvertResult)>,
    is: spec_fn(ConvertStatus) -> bool,
) -> nat
    decreases results.len(),
{
    if results.len() == 0 {
        0
    } else {
        count_status(results.drop_last(), is) + (if is(results.last().1.status) {
            1nat
        } else {
            0nat
        })
    }
}

/// How many projects came to what.
pub fn convert_tally(results: &Vec<(usize, ConvertResult)>) -> (t: ConvertTally)
    ensures
        t.queued == count_status(results@, |s: ConvertStatus| s is Queued),
        t.already == count_status(results@, |s: ConvertStatus| s is AlreadyRegistered),
        t.dry == count_status(results@, |s: ConvertStatus| s is DryRun),
        t.failed == count_status(results@, |s: ConvertStatus| s is Failed),
        t.queued + t.already + t.dry + t.failed == results.len(),
{
    let ghost queued = |s: ConvertStatus| s is Queued;
    let ghost already = |s: ConvertStatus| s is AlreadyRegistered;
    let ghost dry = |s: ConvertStatus| s is DryRun;
    let ghost failed = |s: ConvertStatus| s is Failed;
    let mut t = ConvertTally { queued: 0, already: 0, dry: 0, failed: 0 };
    for i in 0..results.len()
        invariant
            queued == (|s: ConvertStatus| s is Queued),
            already == (|s: ConvertStatus| s is AlreadyRegistered),
            dry == (|s: ConvertStatus| s is DryRun),
            failed == (|s: ConvertStatus| s is Failed),
            t.queued == count_status(results@.take(i as int), queued),
            t.already == count_status(results@.take(i as int), already),
            t.dry == count_status(results@.take(i as int), dry),
            t.failed == count_status(results@.take(i as int), failed),
            t.queued + t.already + t.dry + t.failed == i,
    {
        assert(results@.take(i + 1).drop_last() =~= results@.take(i as int));
        assert(results@.take(i + 1).last() == results@[i as int]);
        match &results[i].1.status {
            ConvertStatus::Queued => {
                t.queued = t.queued + 1;
            },
            ConvertStatus::AlreadyRegistered => {
                t.already = t.already + 1;
            },
            ConvertStatus::DryRun => {
                t.dry = t.dry + 1;
            },
            ConvertStatus::Failed(_) => {
                t.failed = t.failed + 1;
            },
        }
    }
    assert(results@.take(results.len() as int) =~= results@);
    t
}

/// The last line of a conversion of all projects.
pub fn convert_summary(t: &ConvertTally, dry_run: bool) -> (s: String)
    ensures
        s@ == (if dry_run {
            "Dry run complete: "@ + decimal(t.dry as nat) + " projects"@
        } else {
            "Summary: "@ + decimal(t.queued as nat) + " queued, "@ + decimal(t.already as nat)
                + " already registered (reindexing), "@ + decimal(t.failed as nat) + " failed"@
        }),
{
    if dry_run {
        let mut s = "Dry run complete: ".to_owned();
        s.append(decimal_text(t.dry as u64).as_str());
        s.append(" projects");
        s
    } else {
        let mut s = "Summary: ".to_owned();
        s.append(decimal_text(t.queued as u64).as_str());
        s.append(" queued, ");
        s.append(decimal_text(t.already as u64).as_str());
        s.append(" already registered (reindexing), ");
        s.append(decimal_text(t.failed as u64).as_str());
        s.append(" failed");
        s
    }
}

/// How many projects are converted at once: at least one.
pub fn convert_permits(concurrency: usize) -> (n: usize)
    ensures
        n == (if concurrency == 0 {
            1
        } else {
            concurrency
        }),
{
    if concurrency == 0 {
        1
    } else {
        concurrency
    }
}

} // verus!
