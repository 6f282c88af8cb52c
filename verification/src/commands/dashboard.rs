//! Opening the admin panel of a running daemon.
use crate::commands::daemon_utils::{address_in, http_addr_path, read_http_addr_file, two_below};
use crate::engine::memguard::opt_str;
use vstd::prelude::*;
use vstd::string::*;

verus! {

/// Why the panel cannot be opened.
pub enum DashboardError {
    /// The home directory is not known.
    NoHome(String),
    /// There is no address file.
    NotRunning(String),
    /// The address file is empty.
    Empty(String),
}

/// The URL of the admin panel, from the content of the address file, where
/// there is one.
pub fn handle_dashboard(home: Option<&str>, addr_file: Option<&str>) -> (r: Result<
    String,
    DashboardError,
>)
    ensures
        match r {
            Ok(url) => home is Some && (address_in(opt_str(addr_file)) matches Some(addr) && url@
                == "http://"@ + addr + "/ui"@),
            Err(DashboardError::NoHome(s)) => home is None && s@
                == "could not resolve $HOME — set HOME and try again"@,
            Err(DashboardError::NotRunning(s)) => addr_file is None && (opt_str(home) matches Some(
                h,
            ) && s@ == "No daemon running ("@ + two_below(h, ".trusty-search"@, "http_addr"@)
                + " not found). Start one with trusty-search start."@),
            Err(DashboardError::Empty(s)) => addr_file is Some && address_in(
                opt_str(addr_file),
            ) is None && (opt_str(home) matches Some(h) && s@ == two_below(
                h,
                ".trusty-search"@,
                "http_addr"@,
            ) + " is empty — daemon may be shutting down"@),
        },
{
    let path = match http_addr_path(home) {
        Some(p) => p,
        None => {
            return Err(
                DashboardError::NoHome(
                    "could not resolve $HOME — set HOME and try again".to_owned(),
                ),
            );
        },
    };
    if addr_file.is_none() {
        let mut s = "No daemon running (".to_owned();
        s.append(path.as_str());
        s.append(" not found). Start one with trusty-search start.");
        return Err(DashboardError::NotRunning(s));
    }
    match read_http_addr_file(addr_file) {
        Some(addr) => {
            let mut url = "http://".to_owned();
            url.append(addr.as_str());
            url.append("/ui");
            Ok(url)
        },
        None => {
            let mut s = path;
            s.append(" is empty — daemon may be shutting down");
            Err(DashboardError::Empty(s))
        },
    }
}

} // verus!
