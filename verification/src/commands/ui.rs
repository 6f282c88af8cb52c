//! Opening the web interface of the daemon on this machine.
use crate::commands::daemon_utils::{local_base, local_url, port_from, port_in, DEFAULT_PORT};
use crate::engine::memguard::opt_str;
use crate::text::concat;
use vstd::prelude::*;
use vstd::string::*;

verus! {

/// Where the web interface is.
pub struct UiTarget {
    /// The daemon's URL.
    pub base: String,
    /// The URL that is opened.
    pub url: String,
    /// The URL that tells whether the daemon is there.
    pub probe_url: String,
}

/// The port of the web interface: the one that was asked for, the one in the
/// port file, or the default one.
pub open spec fn ui_port(port: Option<u16>, port_file: Option<Seq<char>>) -> u16 {
    match port {
        Some(p) => p,
        None => match port_in(port_file) {
            Some(p) => p,
            None => DEFAULT_PORT,
        },
    }
}

/// Where the web interface is.
pub fn handle_ui(port: Option<u16>, port_file: Option<&str>) -> (t: UiTarget)
    ensures
        t.base@ == local_url(ui_port(port, opt_str(port_file))),
        t.url@ == t.base@ + "/ui"@,
        t.probe_url@ == t.base@ + "/health"@,
{
    let chosen: u16 = match port {
        Some(p) => p,
        None => match port_from(port_file) {
            Some(p) => p,
            None => DEFAULT_PORT,
        },
    };
    let base = local_base(chosen);
    let url = concat(base.as_str(), "/ui");
    let probe_url = concat(base.as_str(), "/health");
    UiTarget { base, url, probe_url }
}

/// What to tell before the browser is opened: the daemon has to be there.
pub fn opening(t: &UiTarget, healthy: bool) -> (r: Result<String, String>)
    ensures
        match r {
            Ok(s) => healthy && s@ == "Opening "@ + t.url@ + " …"@,
            Err(s) => !healthy && s@ == "Daemon not reachable at "@ + t.base@
                + ". Run trusty-search start first."@,
        },
{
    if healthy {
        let mut s = "Opening ".to_owned();
        s.append(t.url.as_str());
        s.append(" …");
        Ok(s)
    } else {
        let mut s = "Daemon not reachable at ".to_owned();
        s.append(t.base.as_str());
        s.append(". Run trusty-search start first.");
        Err(s)
    }
}

/// What to tell where no browser could be opened.
pub fn open_by_hand(url: &str, error: &str) -> (s: String)
    ensures
        s@ == "could not launch browser ("@ + error@ + "). Open this URL manually: "@ + url@,
{
    let mut s = "could not launch browser (".to_owned();
    s.append(error);
    s.append("). Open this URL manually: ");
    s.append(url);
    s
}

} // verus!
