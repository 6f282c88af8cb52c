//! Indexing a project again.
use crate::commands::add::handle_add;
use crate::text::opt_text;
use vstd::prelude::*;
use vstd::string::*;

verus! {

/// What is indexed again.
pub struct ReindexTarget {
    /// The index.
    pub index_id: String,
    /// The directory.
    pub path: String,
    /// What to warn of where the name of the index is only a guess.
    pub warning: Option<String>,
}

/// What is indexed again: the directory that was given, or the root of the
/// project that the working directory belongs to.
pub fn handle_reindex(
    explicit: Option<&str>,
    path: Option<&str>,
    detected: &str,
    detected_root: &str,
    fallback: bool,
) -> (t: ReindexTarget)
    ensures
        t.index_id@ == (match explicit {
            Some(id) => id@,
            None => detected@,
        }),
        t.path@ == (match path {
            Some(p) => p@,
            None => detected_root@,
        }),
        opt_text(t.warning) == (if explicit is None && fallback {
            Some(
                "No .git or .trusty-search found — using directory name '"@ + detected@
                    + "'. Run `trusty-search init` to register this project."@,
            )
        } else {
            None
        }),
{
    let (index_id, warning) = handle_add(explicit, detected, fallback);
    let dir = match path {
        Some(p) => p.to_owned(),
        None => detected_root.to_owned(),
    };
    ReindexTarget { index_id, path: dir, warning }
}

} // verus!
