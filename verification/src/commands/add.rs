//! Indexing single files.
use crate::commands::daemon_utils::{index_header, resolve_index, Reply};
use crate::text::{concat, decimal, decimal_text, opt_text};
use vstd::prelude::*;
use vstd::string::*;

verus! {

/// The index that a file is added to, and what to warn of where its name is only
/// a guess.
pub fn handle_add(explicit: Option<&str>, detected: &str, fallback: bool) -> (r: (
    String,
    Option<String>,
))
    ensures
        r.0@ == (match explicit {
            Some(id) => id@,
            None => detected@,
        }),
        opt_text(r.1) == (if explicit is None && fallback {
            Some(
                "No .git or .trusty-search found — using directory name '"@ + detected@
                    + "'. Run `trusty-search init` to register this project."@,
            )
        } else {
            None
        }),
{
    let (index_id, warned) = resolve_index(explicit, detected, fallback);
    let warning = index_header(index_id.as_str(), warned);
    (index_id, warning)
}

/// What to tell where a file could not be read.
pub fn unreadable(path: &str, error: &str) -> (s: String)
    ensures
        s@ == "read "@ + path@ + ": "@ + error@,
{
    let mut s = concat("read ", path);
    s.append(": ");
    s.append(error);
    s
}

/// What the reply to a file that was sent to `url` means.
pub fn index_single_file(url: &str, reply: &Reply) -> (r: Result<(), String>)
    ensures
        match (*reply, r) {
            (Reply::Answered { status, success, body }, Ok(())) => success,
            (Reply::Answered { status, success, body }, Err(s)) => !success && s@
                == "daemon returned "@ + status@ + " for "@ + url@,
            (Reply::Unreachable(e), Err(s)) => s@ == e@,
            _ => false,
        },
{
    match reply {
        Reply::Answered { status, success, body } => if *success {
            Ok(())
        } else {
            let mut s = concat("daemon returned ", status.as_str());
            s.append(" for ");
            s.append(url);
            Err(s)
        },
        Reply::Unreachable(e) => Err(e.clone()),
    }
}

/// What is told before the files of a directory are sent.
pub fn adding(index_id: &str, files: u64, path: &str) -> (s: String)
    ensures
        s@ == "["@ + index_id@ + "] indexing "@ + decimal(files as nat) + " files under "@ + path@,
{
    let mut s = concat("[", index_id);
    s.append("] indexing ");
    s.append(decimal_text(files).as_str());
    s.append(" files under ");
    s.append(path);
    s
}

/// What indexing single files came to: how many were taken, and how many were
/// not.
pub fn add_tally(outcomes: &Vec<bool>) -> (line: String)
    ensures
        line@ == "indexed "@ + decimal(outcomes@.filter(|ok: bool| ok).len()) + " files ("@
            + decimal(outcomes@.filter(|ok: bool| !ok).len()) + " errors)"@,
{
    let ghost taken = |ok: bool| ok;
    let ghost missed = |ok: bool| !ok;
    let mut ok: u64 = 0;
    let mut errors: u64 = 0;
    proof {
        reveal_with_fuel(Seq::<_>::filter, 1);
        assert(outcomes@.take(0) =~= Seq::empty());
    }
    for i in 0..outcomes.len()
        invariant
            taken == (|ok: bool| ok),
            missed == (|ok: bool| !ok),
            ok + errors == i,
            ok == outcomes@.take(i as int).filter(taken).len(),
            errors == outcomes@.take(i as int).filter(missed).len(),
    {
        proof {
            reveal_with_fuel(Seq::<_>::filter, 2);
            assert(outcomes@.take(i + 1).drop_last() =~= outcomes@.take(i as int));
            assert(outcomes@.take(i + 1).last() == outcomes@[i as int]);
        }
        if outcomes[i] {
            ok = ok + 1;
        } else {
            errors = errors + 1;
        }
    }
    assert(outcomes@.take(outcomes.len() as int) =~= outcomes@);
    let mut s = concat("indexed ", decimal_text(ok).as_str());
    s.append(" files (");
    s.append(decimal_text(errors).as_str());
    s.append(" errors)");
    s
}

} // verus!
