//! Serving the tools of the daemon to other programs.
use crate::commands::daemon_utils::host_port;
use crate::text::{concat, decimal};
use vstd::prelude::*;
use vstd::string::*;

verus! {

/// How the tools are served.
pub enum ServePlan {
    /// Over standard input and output, with a line on what is connected to what.
    Stdio(String),
    /// Over HTTP, bound to an address.
    Http(String),
}

/// How the tools are served: over HTTP unless that is switched off, bound to
/// the address that was given or else to a port of this machine.
pub fn handle_serve(no_http: bool, port: u16, http: Option<&str>, daemon_url: &str) -> (plan:
    ServePlan)
    ensures
        match plan {
            ServePlan::Stdio(s) => no_http && s@ == "MCP stdio (no HTTP) → daemon "@ + daemon_url@,
            ServePlan::Http(addr) => !no_http && addr@ == (match http {
                Some(a) => a@,
                None => "127.0.0.1"@ + ":"@ + decimal(port as nat),
            }),
        },
{
    if no_http {
        return ServePlan::Stdio(concat("MCP stdio (no HTTP) → daemon ", daemon_url));
    }
    match http {
        Some(a) => ServePlan::Http(a.to_owned()),
        None => ServePlan::Http(host_port("127.0.0.1", port)),
    }
}

/// The content of the address file of a server bound to `local`.
pub fn address_file(local: &str) -> (content: String)
    ensures
        content@ == local@ + "\n"@,
{
    concat(local, "\n")
}

/// What is shown of a server bound to `local`.
pub fn serve_banner(version: &str, local: &str, daemon_url: &str) -> (lines: (String, String))
    ensures
        lines.0@ == "trusty-search v"@ + version@ + " — HTTP admin panel: http://"@ + local@,
        lines.1@ == "MCP HTTP/SSE on "@ + local@ + " → daemon "@ + daemon_url@,
{
    let mut panel = "trusty-search v".to_owned();
    panel.append(version);
    panel.append(" — HTTP admin panel: http://");
    panel.append(local);
    let mut transport = "MCP HTTP/SSE on ".to_owned();
    transport.append(local);
    transport.append(" → daemon ");
    transport.append(daemon_url);
    (panel, transport)
}

} // verus!
