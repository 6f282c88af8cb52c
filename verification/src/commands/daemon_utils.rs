//! Where the daemon is found, and what is sent to it.
use crate::engine::memguard::opt_str;
use crate::json::{
    compact_json, compact_text, empty_members, json_object, json_text, no_members, set_member,
    JsonTree,
};
use crate::paths::{join_path, join_path_spec};
use crate::text::{concat, decimal, decimal_text, opt_text, parse_u64, trim, trim_spec, unsigned_value};
use vstd::prelude::*;
use vstd::string::*;

verus! {

/// The port that the daemon listens on where nothing else is said.
pub const DEFAULT_PORT: u16 = 7878;

/// `name` in the directory `dir` of `base`.
pub open spec fn two_below(base: Seq<char>, dir: Seq<char>, name: Seq<char>) -> Seq<char> {
    join_path_spec(join_path_spec(base, dir), name)
}

fn below_two(base: &str, dir: &str, name: &str) -> (path: String)
    ensures
        path@ == two_below(base@, dir@, name@),
{
    join_path(join_path(base, dir).as_str(), name)
}

/// The file that holds the daemon's address, where the home directory is known.
pub fn http_addr_path(home: Option<&str>) -> (path: Option<String>)
    ensures
        opt_text(path) == (match home {
            Some(h) => Some(two_below(h@, ".trusty-search"@, "http_addr"@)),
            None => None,
        }),
{
    match home {
        Some(h) => Some(below_two(h, ".trusty-search", "http_addr")),
        None => None,
    }
}

/// The file that holds the daemon's port, where the directory for local data is
/// known.
pub fn daemon_port_path(data_local: Option<&str>) -> (path: Option<String>)
    ensures
        opt_text(path) == (match data_local {
            Some(d) => Some(two_below(d@, "trusty-search"@, "daemon.port"@)),
            None => None,
        }),
{
    match data_local {
        Some(d) => Some(below_two(d, "trusty-search", "daemon.port")),
        None => None,
    }
}

/// The file that holds the daemon's process number, where the directory for
/// local data is known.
pub fn daemon_lock_path(data_local: Option<&str>) -> (path: Option<String>)
    ensures
        opt_text(path) == (match data_local {
            Some(d) => Some(two_below(d@, "trusty-search"@, "daemon.lock"@)),
            None => None,
        }),
{
    match data_local {
        Some(d) => Some(below_two(d, "trusty-search", "daemon.lock")),
        None => None,
    }
}

/// The address in the content of an address file: its text without white space
/// around it, unless nothing is left.
pub open spec fn address_in(raw: Option<Seq<char>>) -> Option<Seq<char>> {
    match raw {
        Some(s) => if trim_spec(s).len() == 0 {
            None
        } else {
            Some(trim_spec(s))
        },
        None => None,
    }
}

/// The address in the content of an address file.
pub fn read_http_addr_file(raw: Option<&str>) -> (addr: Option<String>)
    ensures
        opt_text(addr) == address_in(opt_str(raw)),
{
    match raw {
        Some(s) => {
            let t = trim(s);
            if t.as_str().is_empty() {
                None
            } else {
                Some(t)
            }
        },
        None => None,
    }
}

/// The number in the content of a file, up to `max`.
pub open spec fn number_in(raw: Option<Seq<char>>, max: nat) -> Option<nat> {
    match raw {
        Some(s) => match unsigned_value(trim_spec(s)) {
            Some(n) => if n <= max {
                Some(n)
            } else {
                None
            },
            None => None,
        },
        None => None,
    }
}

/// The port in the content of a port file.
pub open spec fn port_in(raw: Option<Seq<char>>) -> Option<u16> {
    match number_in(raw, u16::MAX as nat) {
        Some(n) => Some(n as u16),
        None => None,
    }
}

/// The port in the content of a port file.
pub fn port_from(raw: Option<&str>) -> (port: Option<u16>)
    ensures
        port == port_in(opt_str(raw)),
{
    match raw {
        Some(s) => match parse_u64(trim(s).as_str()) {
            Some(n) => if n <= 65535 {
                Some(n as u16)
            } else {
                None
            },
            None => None,
        },
        None => None,
    }
}

/// The process number in the content of a lock file.
pub open spec fn pid_in(raw: Option<Seq<char>>) -> Option<u32> {
    match number_in(raw, u32::MAX as nat) {
        Some(n) => Some(n as u32),
        None => None,
    }
}

/// The process number in the content of a lock file.
pub fn pid_from(raw: Option<&str>) -> (pid: Option<u32>)
    ensures
        pid == pid_in(opt_str(raw)),
{
    match raw {
        Some(s) => match parse_u64(trim(s).as_str()) {
            Some(n) => if n <= 0xffff_ffff {
                Some(n as u32)
            } else {
                None
            },
            None => None,
        },
        None => None,
    }
}

/// The port in the content of a port file, or the default one.
pub fn read_daemon_port(raw: Option<&str>) -> (port: u16)
    ensures
        port == (match port_in(opt_str(raw)) {
            Some(p) => p,
            None => DEFAULT_PORT,
        }),
{
    match port_from(raw) {
        Some(p) => p,
        None => DEFAULT_PORT,
    }
}

/// The URL of a port of this machine.
pub open spec fn local_url(port: u16) -> Seq<char> {
    "http://127.0.0.1:"@ + decimal(port as nat)
}

/// The URL of a port of this machine.
pub fn local_base(port: u16) -> (url: String)
    ensures
        url@ == local_url(port),
{
    concat("http://127.0.0.1:", decimal_text(port as u64).as_str())
}

/// The daemon's URL, from the contents of the address file and the port file:
/// the address goes before the port, and the default port comes last.
pub open spec fn base_url(addr_file: Option<Seq<char>>, port_file: Option<Seq<char>>) -> Seq<char> {
    match address_in(addr_file) {
        Some(addr) => "http://"@ + addr,
        None => match port_in(port_file) {
            Some(p) => local_url(p),
            None => local_url(DEFAULT_PORT),
        },
    }
}

/// The daemon's URL, from the contents of the address file and the port file.
pub fn daemon_base_url(addr_file: Option<&str>, port_file: Option<&str>) -> (url: String)
    ensures
        url@ == base_url(opt_str(addr_file), opt_str(port_file)),
{
    match read_http_addr_file(addr_file) {
        Some(addr) => concat("http://", addr.as_str()),
        None => local_base(read_daemon_port(port_file)),
    }
}

/// The address that is tried to see whether a port is reachable.
pub fn host_port(host: &str, port: u16) -> (addr: String)
    ensures
        addr@ == host@ + ":"@ + decimal(port as nat),
{
    let head = concat(host, ":");
    concat(head.as_str(), decimal_text(port as u64).as_str())
}

/// The index that a command is about: the one that was named, or else the one
/// detected from the working directory. The second part says whether the name
/// is only a guess.
pub fn resolve_index(explicit: Option<&str>, detected: &str, fallback: bool) -> (r: (String, bool))
    ensures
        match explicit {
            Some(id) => r.0@ == id@ && !r.1,
            None => r.0@ == detected@ && r.1 == fallback,
        },
{
    match explicit {
        Some(id) => (id.to_owned(), false),
        None => (detected.to_owned(), fallback),
    }
}

/// What to warn of where the name of the index is only a guess.
pub fn index_header(index_id: &str, warned: bool) -> (r: Option<String>)
    ensures
        opt_text(r) == (if warned {
            Some(
                "No .git or .trusty-search found — using directory name '"@ + index_id@
                    + "'. Run `trusty-search init` to register this project."@,
            )
        } else {
            None
        }),
{
    if warned {
        let mut s = "No .git or .trusty-search found — using directory name '".to_owned();
        s.append(index_id);
        s.append("'. Run `trusty-search init` to register this project.");
        Some(s)
    } else {
        None
    }
}

// ---------------------------------------------------------------------------
// Requests
// ---------------------------------------------------------------------------

/// An object of two texts.
pub open spec fn text_pair(k: Seq<char>, v: Seq<char>, l: Seq<char>, w: Seq<char>) -> JsonTree {
    JsonTree::Object(empty_members().insert(k, JsonTree::Text(v)).insert(l, JsonTree::Text(w)))
}

fn pair_body(k: &str, v: &str, l: &str, w: &str) -> (body: String)
    ensures
        body@ == compact_text(text_pair(k@, v@, l@, w@)),
{
    let mut m = no_members();
    set_member(&mut m, k, json_text(v.to_owned()));
    set_member(&mut m, l, json_text(w.to_owned()));
    compact_json(&json_object(m))
}

/// The request that registers an index.
pub fn registration_body(id: &str, root_path: &str) -> (body: String)
    ensures
        body@ == compact_text(text_pair("id"@, id@, "root_path"@, root_path@)),
{
    pair_body("id", id, "root_path", root_path)
}

/// The request that has one file indexed.
pub fn index_file_body(path: &str, content: &str) -> (body: String)
    ensures
        body@ == compact_text(text_pair("path"@, path@, "content"@, content@)),
{
    pair_body("path", path, "content", content)
}

/// The request that has a directory indexed again.
pub fn reindex_body(root_path: &str) -> (body: String)
    ensures
        body@ == compact_text(
            JsonTree::Object(empty_members().insert("root_path"@, JsonTree::Text(root_path@))),
        ),
{
    let mut m = no_members();
    set_member(&mut m, "root_path", json_text(root_path.to_owned()));
    compact_json(&json_object(m))
}

/// What came back from the daemon.
pub enum Reply {
    /// An answer: its status line, whether that means success, and its body.
    Answered { status: String, success: bool, body: String },
    /// No answer, and why.
    Unreachable(String),
}

} // verus!
