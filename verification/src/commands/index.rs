//! Registering a project and indexing it.
use crate::commands::daemon_utils::Reply;
use crate::commands::format::{format_with_commas, grouped};
use crate::engine::memguard::opt_str;
use crate::json::{bool_at, parse_or_empty, parsed_or_empty, read_bool};
use crate::paths::{file_name, file_name_spec};
use crate::text::{concat, decimal, decimal_text, opt_text, texts};
use vstd::prelude::*;
use vstd::string::*;

verus! {

/// The file at the root of a project that declares its indexes.
pub open spec fn config_filename() -> Seq<char> {
    "trusty-search.yaml"@
}

/// What a project is indexed as.
pub struct IndexPlan {
    /// The directory.
    pub path: String,
    /// The names of its indexes, in order.
    pub names: Vec<String>,
    /// What to tell of the declarations.
    pub notice: Option<String>,
    /// What to tell of a name that is not used.
    pub ignored: Option<String>,
}

/// The directory that is indexed: the one that was given, or the working
/// directory.
pub open spec fn project_dir(path: Option<Seq<char>>, cwd: Seq<char>) -> Seq<char> {
    match path {
        Some(p) => p,
        None => cwd,
    }
}

/// The name of a project that declares no indexes: the one that was given, or
/// the last part of its directory.
pub open spec fn single_name(name: Option<Seq<char>>, dir: Seq<char>) -> Seq<char> {
    match name {
        Some(n) => n,
        None => match file_name_spec(dir) {
            Some(base) => base,
            None => Seq::empty(),
        },
    }
}

/// What a project is indexed as. `declared` holds the indexes that the project
/// declares, where it does; an error where the declaration cannot be read.
pub fn handle_index(
    path: Option<&str>,
    cwd: &str,
    name: Option<&str>,
    declared: Result<Option<Vec<String>>, String>,
) -> (r: Result<IndexPlan, String>)
    ensures
        match (declared, r) {
            (Err(e), Err(s)) => s@ == "could not parse "@ + config_filename() + ": "@ + e@,
            (Ok(Some(names)), Ok(plan)) => {
                &&& plan.path@ == project_dir(opt_str(path), cwd@)
                &&& plan.names@ == names@
                &&& opt_text(plan.notice) == Some(
                    "loaded "@ + config_filename() + " ("@ + decimal(names.len() as nat)
                        + " index"@ + (if names.len() == 1 {
                        ""@
                    } else {
                        "es"@
                    }) + " declared)"@,
                )
                &&& opt_text(plan.ignored) == (match name {
                    Some(_) => Some(
                        "--name is ignored when "@ + config_filename() + " is present"@,
                    ),
                    None => None,
                })
            },
            (Ok(None), Ok(plan)) => {
                &&& plan.path@ == project_dir(opt_str(path), cwd@)
                &&& texts(plan.names@) == seq![
                    single_name(opt_str(name), project_dir(opt_str(path), cwd@)),
                ]
                &&& plan.notice is None
                &&& plan.ignored is None
            },
            _ => false,
        },
{
    let dir = match path {
        Some(p) => p.to_owned(),
        None => cwd.to_owned(),
    };
    match declared {
        Err(e) => {
            let mut s = "could not parse ".to_owned();
            s.append("trusty-search.yaml");
            s.append(": ");
            s.append(e.as_str());
            Err(s)
        },
        Ok(Some(names)) => {
            let mut notice = "loaded ".to_owned();
            notice.append("trusty-search.yaml");
            notice.append(" (");
            notice.append(decimal_text(names.len() as u64).as_str());
            notice.append(" index");
            notice.append(if names.len() == 1 {
                ""
            } else {
                "es"
            });
            notice.append(" declared)");
            let ignored = match name {
                Some(_) => {
                    let mut s = "--name is ignored when ".to_owned();
                    s.append("trusty-search.yaml");
                    s.append(" is present");
                    Some(s)
                },
                None => None,
            };
            Ok(IndexPlan { path: dir, names, notice: Some(notice), ignored })
        },
        Ok(None) => {
            let single = match name {
                Some(n) => n.to_owned(),
                None => match file_name(dir.as_str()) {
                    Some(base) => base,
                    None => String::new(),
                },
            };
            let ghost view = single@;
            let mut names: Vec<String> = Vec::new();
            names.push(single);
            assert(texts(names@) =~= seq![view]);
            Ok(IndexPlan { path: dir, names, notice: None, ignored: None })
        },
    }
}

/// What the reply to a registration means: whether the index is new and whether
/// the daemon answered at all, or that it refused.
pub fn register_index_with_daemon(reply: &Reply) -> (r: Result<(bool, bool), String>)
    ensures
        match (*reply, r) {
            (Reply::Answered { status, success, body }, Ok(p)) => success && p == (
                bool_at(parsed_or_empty(body@), "created"@),
                true,
            ),
            (Reply::Answered { status, success, body }, Err(s)) => !success && s@
                == "daemon returned "@ + status@ + " for POST /indexes"@,
            (Reply::Unreachable(_), Ok(p)) => p == (false, false),
            _ => false,
        },
{
    match reply {
        Reply::Answered { status, success, body } => if *success {
            Ok((read_bool(&parse_or_empty(body.as_str()), "created"), true))
        } else {
            let mut s = concat("daemon returned ", status.as_str());
            s.append(" for POST /indexes");
            Err(s)
        },
        Reply::Unreachable(_) => Ok((false, false)),
    }
}

/// Whether a registered index is indexed: one that has chunks already is passed
/// over unless it is forced. `chunks` is how many it has, where that is known.
pub fn needs_reindex(force: bool, chunks: Option<u64>) -> (r: bool)
    ensures
        r == (force || !(chunks matches Some(n) && n > 0)),
{
    match chunks {
        Some(n) => force || n == 0,
        None => true,
    }
}

/// What to tell of an index that is passed over.
pub fn already_indexed(index_name: &str, chunks: u64) -> (s: String)
    ensures
        s@ == "'"@ + index_name@ + "' is already indexed ("@ + grouped(decimal(chunks as nat))
            + " chunks) — use --force to reindex"@,
{
    let mut s = concat("'", index_name);
    s.append("' is already indexed (");
    s.append(format_with_commas(chunks).as_str());
    s.append(" chunks) — use --force to reindex");
    s
}

/// What to tell after a registration: nothing of an index that was there, and
/// an error where the daemon is not there.
pub fn index_one(
    index_name: &str,
    project_path: &str,
    base: &str,
    created: bool,
    reachable: bool,
) -> (r: Result<Option<String>, String>)
    ensures
        match r {
            Err(s) => !reachable && s@ == "Daemon not reachable at "@ + base@
                + ". Start it with trusty-search start."@,
            Ok(Some(s)) => reachable && created && s@ == "'"@ + index_name@ + "' registered at "@
                + project_path@,
            Ok(None) => reachable && !created,
        },
{
    if !reachable {
        let mut s = concat("Daemon not reachable at ", base);
        s.append(". Start it with trusty-search start.");
        return Err(s);
    }
    if !created {
        return Ok(None);
    }
    let mut s = concat("'", index_name);
    s.append("' registered at ");
    s.append(project_path);
    Ok(Some(s))
}

} // verus!
