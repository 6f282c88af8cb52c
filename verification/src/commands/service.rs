//! The daemon as a service that launchd starts at login.
use crate::commands::daemon_utils::two_below;
use crate::engine::memguard::opt_str;
use crate::paths::{join_path, join_path_spec};
use crate::text::{
    concat, decimal, decimal_text, join, join_spec, replace_char, replace_char_spec, texts, trim,
    trim_spec,
};
use vstd::prelude::*;
use vstd::string::*;

verus! {

/// What to do about the service.
#[derive(Debug, Clone, Copy, PartialEq, Eq, Structural)]
pub enum ServiceAction {
    Install,
    Uninstall,
    Status,
    Logs,
}

/// The name under which launchd knows the service.
pub open spec fn launchd_label() -> Seq<char> {
    "com.trusty.trusty-search"@
}

fn label() -> (s: String)
    ensures
        s@ == launchd_label(),
{
    "com.trusty.trusty-search".to_owned()
}

/// What is to be done.
pub enum ServicePlan {
    /// Write `body` to the file `plist_path` and load it into the domain.
    Install { plist_path: String, log_dir: String, body: String, domain: String },
    /// Unload the file from the domain and remove it.
    Uninstall { plist_path: String, domain: String },
    /// Ask launchd about the target.
    Status { target: String },
    /// Follow the two logs.
    Logs { log_dir: String, stdout: String, stderr: String },
}

/// The service description of a user.
pub open spec fn plist_path_spec(home: Seq<char>) -> Seq<char> {
    join_path_spec(two_below(home, "Library"@, "LaunchAgents"@), launchd_label() + ".plist"@)
}

/// The service description of a user.
pub fn launchd_plist_path(home: &str) -> (path: String)
    ensures
        path@ == plist_path_spec(home@),
{
    let agents = join_path(join_path(home, "Library").as_str(), "LaunchAgents");
    join_path(agents.as_str(), concat(label().as_str(), ".plist").as_str())
}

/// The directory of the service's logs.
pub open spec fn log_dir_spec(home: Seq<char>) -> Seq<char> {
    join_path_spec(two_below(home, "Library"@, "Logs"@), "trusty-search"@)
}

/// The directory of the service's logs.
pub fn launchd_log_dir(home: &str) -> (path: String)
    ensures
        path@ == log_dir_spec(home@),
{
    let logs = join_path(join_path(home, "Library").as_str(), "Logs");
    join_path(logs.as_str(), "trusty-search")
}

/// The text with the characters that XML reserves written as entities.
pub open spec fn escaped(s: Seq<char>) -> Seq<char> {
    replace_char_spec(
        replace_char_spec(replace_char_spec(s, '&', "&amp;"@), '<', "&lt;"@),
        '>',
        "&gt;"@,
    )
}

/// The text with the characters that XML reserves written as entities.
pub fn xml_escape(s: &str) -> (r: String)
    ensures
        r@ == escaped(s@),
{
    let a = replace_char(s, '&', "&amp;");
    let b = replace_char(a.as_str(), '<', "&lt;");
    replace_char(b.as_str(), '>', "&gt;")
}

/// One environment variable in a service description.
pub open spec fn env_entry(key: Seq<char>, value: Seq<char>) -> Seq<char> {
    "        <key>"@ + key + "</key>\n        <string>"@ + escaped(value) + "</string>"@
}

/// The environment of the service: the model cache below the home directory,
/// where that is known, then the given variables in order.
pub open spec fn env_entries(home: Option<Seq<char>>, vars: Seq<(String, String)>) -> Seq<
    Seq<char>,
> {
    (match home {
        Some(h) => seq![env_entry("HF_HOME"@, two_below(h, ".cache"@, "huggingface"@))],
        None => Seq::empty(),
    }) + vars.map_values(|v: (String, String)| env_entry(v.0@, v.1@))
}

/// The environment section of a service description; empty where there are no
/// variables.
pub open spec fn env_section(home: Option<Seq<char>>, vars: Seq<(String, String)>) -> Seq<char> {
    let entries = env_entries(home, vars);
    if entries.len() == 0 {
        Seq::empty()
    } else {
        "    <key>EnvironmentVariables</key>\n    <dict>\n"@ + join_spec(entries, "\n"@)
            + "\n    </dict>\n"@
    }
}

fn env_line(key: &str, value: &str) -> (s: String)
    ensures
        s@ == env_entry(key@, value@),
{
    let mut s = "        <key>".to_owned();
    s.append(key);
    s.append("</key>\n        <string>");
    s.append(xml_escape(value).as_str());
    s.append("</string>");
    s
}

/// The environment section of a service description.
pub fn launchd_env_vars_plist(home: Option<&str>, vars: &Vec<(String, String)>) -> (s: String)
    ensures
        s@ == env_section(opt_str(home), vars@),
{
    let ghost wanted = env_entries(opt_str(home), vars@);
    let ghost own = vars@.map_values(|v: (String, String)| env_entry(v.0@, v.1@));
    let mut lines: Vec<String> = Vec::new();
    if let Some(h) = home {
        let cache = join_path(join_path(h, ".cache").as_str(), "huggingface");
        lines.push(env_line("HF_HOME", cache.as_str()));
    }
    let ghost first = texts(lines@);
    assert(wanted =~= first + own);
    for i in 0..vars.len()
        invariant
            own == vars@.map_values(|v: (String, String)| env_entry(v.0@, v.1@)),
            texts(lines@) =~= first + own.take(i as int),
    {
        let ghost before = texts(lines@);
        lines.push(env_line(vars[i].0.as_str(), vars[i].1.as_str()));
        assert(texts(lines@) =~= before.push(own[i as int]));
        assert(own.take(i + 1) =~= own.take(i as int).push(own[i as int]));
    }
    assert(own.take(own.len() as int) =~= own);
    assert(texts(lines@) =~= wanted);
    if lines.len() == 0 {
        return String::new();
    }
    assert(wanted.take(lines.len() as int) =~= wanted);
    let mut s = "    <key>EnvironmentVariables</key>\n    <dict>\n".to_owned();
    s.append(join(&lines, 0, lines.len(), "\n").as_str());
    s.append("\n    </dict>\n");
    s
}

/// The service description: the daemon runs in the foreground and is started
/// again only after it failed.
pub open spec fn plist_body(exe: Seq<char>, log_dir: Seq<char>, env: Seq<char>) -> Seq<char> {
    plist_head() + launchd_label() + plist_program() + exe + plist_arguments() + env
        + plist_lifecycle() + join_path_spec(log_dir, "stdout.log"@) + plist_stderr()
        + join_path_spec(log_dir, "stderr.log"@) + plist_tail()
}

/// The description up to the label.
pub open spec fn plist_head() -> Seq<char> {
    "<?xml version=\"1.0\" encoding=\"UTF-8\"?>\n<!DOCTYPE plist PUBLIC \"-//Apple//DTD PLIST 1.0//EN\" \"http://www.apple.com/DTDs/PropertyList-1.0.dtd\">\n<plist version=\"1.0\">\n<dict>\n    <key>Label</key>\n    <string>"@
}

/// From the label to the program.
pub open spec fn plist_program() -> Seq<char> {
    "</string>\n    <key>ProgramArguments</key>\n    <array>\n        <string>"@
}

/// From the program to the environment.
pub open spec fn plist_arguments() -> Seq<char> {
    "</string>\n        <string>start</string>\n        <string>--foreground</string>\n    </array>\n"@
}

/// From the environment to the log of standard output.
pub open spec fn plist_lifecycle() -> Seq<char> {
    "    <key>RunAtLoad</key>\n    <true/>\n    <!-- KeepAlive=SuccessfulExit:false means launchd only restarts the daemon\n         on a non-zero exit. The `start` command exits 0 when a live daemon is\n         already running (idempotent fast-path); without this, launchd would\n         immediately re-spawn and crash-loop on the existing lockfile. -->\n    <key>KeepAlive</key>\n    <dict>\n        <key>SuccessfulExit</key>\n        <false/>\n    </dict>\n    <key>ThrottleInterval</key>\n    <integer>30</integer>\n    <key>StandardOutPath</key>\n    <string>"@
}

/// From the log of standard output to that of standard error.
pub open spec fn plist_stderr() -> Seq<char> {
    "</string>\n    <key>StandardErrorPath</key>\n    <string>"@
}

/// After the log of standard error.
pub open spec fn plist_tail() -> Seq<char> {
    "</string>\n    <key>ProcessType</key>\n    <string>Interactive</string>\n</dict>\n</plist>\n"@
}

/// The service description of a program.
pub fn launchd_plist_body(exe: &str, log_dir: &str, env: &str) -> (body: String)
    ensures
        body@ == plist_body(exe@, log_dir@, env@),
{
    let mut s =
        "<?xml version=\"1.0\" encoding=\"UTF-8\"?>\n<!DOCTYPE plist PUBLIC \"-//Apple//DTD PLIST 1.0//EN\" \"http://www.apple.com/DTDs/PropertyList-1.0.dtd\">\n<plist version=\"1.0\">\n<dict>\n    <key>Label</key>\n    <string>".to_owned();
    s.append(label().as_str());
    s.append("</string>\n    <key>ProgramArguments</key>\n    <array>\n        <string>");
    s.append(exe);
    s.append(
        "</string>\n        <string>start</string>\n        <string>--foreground</string>\n    </array>\n",
    );
    s.append(env);
    s.append(
        "    <key>RunAtLoad</key>\n    <true/>\n    <!-- KeepAlive=SuccessfulExit:false means launchd only restarts the daemon\n         on a non-zero exit. The `start` command exits 0 when a live daemon is\n         already running (idempotent fast-path); without this, launchd would\n         immediately re-spawn and crash-loop on the existing lockfile. -->\n    <key>KeepAlive</key>\n    <dict>\n        <key>SuccessfulExit</key>\n        <false/>\n    </dict>\n    <key>ThrottleInterval</key>\n    <integer>30</integer>\n    <key>StandardOutPath</key>\n    <string>",
    );
    s.append(join_path(log_dir, "stdout.log").as_str());
    s.append("</string>\n    <key>StandardErrorPath</key>\n    <string>");
    s.append(join_path(log_dir, "stderr.log").as_str());
    s.append("</string>\n    <key>ProcessType</key>\n    <string>Interactive</string>\n</dict>\n</plist>\n");
    s
}

/// The launchd domain of a user.
pub open spec fn domain_of(uid: u32) -> Seq<char> {
    "gui/"@ + decimal(uid as nat)
}

fn domain(uid: u32) -> (s: String)
    ensures
        s@ == domain_of(uid),
{
    concat("gui/", decimal_text(uid as u64).as_str())
}

/// The message of the error, where what is asked for cannot be done: on other
/// platforms nothing can, installing needs the program's own path, and all but
/// the status need the home directory.
pub open spec fn service_error(
    action: ServiceAction,
    on_macos: bool,
    exe: Result<Seq<char>, Seq<char>>,
    home: Option<Seq<char>>,
) -> Option<Seq<char>> {
    if !on_macos {
        Some(
            "`trusty-search service` is not supported on this platform — use your distro's service manager (systemd, OpenRC, etc.) directly."@,
        )
    } else if action == ServiceAction::Install && exe is Err {
        Some("could not resolve current exe: "@ + exe->Err_0)
    } else if action != ServiceAction::Status && home is None {
        Some("could not resolve $HOME"@)
    } else {
        None
    }
}

/// The characters of a path or of an error.
pub open spec fn path_or_error(r: Result<&str, &str>) -> Result<Seq<char>, Seq<char>> {
    match r {
        Ok(s) => Ok(s@),
        Err(e) => Err(e@),
    }
}

/// What is to be done about the service of a user, on a platform that has
/// launchd or another one.
pub fn handle_service(
    action: ServiceAction,
    on_macos: bool,
    exe: Result<&str, &str>,
    home: Option<&str>,
    uid: u32,
    vars: &Vec<(String, String)>,
) -> (r: Result<ServicePlan, String>)
    ensures
        match r {
            Err(e) => service_error(action, on_macos, path_or_error(exe), opt_str(home)) == Some(
                e@,
            ),
            Ok(plan) => service_error(action, on_macos, path_or_error(exe), opt_str(home)) is None
                && (match plan {
                ServicePlan::Install { plist_path, log_dir, body, domain } => {
                    &&& action == ServiceAction::Install
                    &&& plist_path@ == plist_path_spec(home->Some_0@)
                    &&& log_dir@ == log_dir_spec(home->Some_0@)
                    &&& body@ == plist_body(
                        exe->Ok_0@,
                        log_dir_spec(home->Some_0@),
                        env_section(opt_str(home), vars@),
                    )
                    &&& domain@ == domain_of(uid)
                },
                ServicePlan::Uninstall { plist_path, domain } => {
                    &&& action == ServiceAction::Uninstall
                    &&& plist_path@ == plist_path_spec(home->Some_0@)
                    &&& domain@ == domain_of(uid)
                },
                ServicePlan::Status { target } => {
                    &&& action == ServiceAction::Status
                    &&& target@ == domain_of(uid) + "/"@ + launchd_label()
                },
                ServicePlan::Logs { log_dir, stdout, stderr } => {
                    &&& action == ServiceAction::Logs
                    &&& log_dir@ == log_dir_spec(home->Some_0@)
                    &&& stdout@ == join_path_spec(log_dir@, "stdout.log"@)
                    &&& stderr@ == join_path_spec(log_dir@, "stderr.log"@)
                },
            }),
        },
{
    if !on_macos {
        return Err(
            "`trusty-search service` is not supported on this platform — use your distro's service manager (systemd, OpenRC, etc.) directly.".to_owned(),
        );
    }
    match action {
        ServiceAction::Status => {
            let mut target = domain(uid);
            target.append("/");
            target.append(label().as_str());
            Ok(ServicePlan::Status { target })
        },
        ServiceAction::Install => {
            let program = match exe {
                Ok(p) => p,
                Err(e) => {
                    return Err(concat("could not resolve current exe: ", e));
                },
            };
            let dir = match home {
                Some(h) => h,
                None => {
                    return Err("could not resolve $HOME".to_owned());
                },
            };
            let log_dir = launchd_log_dir(dir);
            let env = launchd_env_vars_plist(home, vars);
            let body = launchd_plist_body(program, log_dir.as_str(), env.as_str());
            Ok(
                ServicePlan::Install {
                    plist_path: launchd_plist_path(dir),
                    log_dir,
                    body,
                    domain: domain(uid),
                },
            )
        },
        ServiceAction::Uninstall => match home {
            Some(h) => Ok(
                ServicePlan::Uninstall { plist_path: launchd_plist_path(h), domain: domain(uid) },
            ),
            None => Err("could not resolve $HOME".to_owned()),
        },
        ServiceAction::Logs => match home {
            Some(h) => {
                let log_dir = launchd_log_dir(h);
                let stdout = join_path(log_dir.as_str(), "stdout.log");
                let stderr = join_path(log_dir.as_str(), "stderr.log");
                Ok(ServicePlan::Logs { log_dir, stdout, stderr })
            },
            None => Err("could not resolve $HOME".to_owned()),
        },
    }
}

/// What to tell after the service was removed, or was not there.
pub fn uninstalled(plist_path: &str, was_there: bool) -> (s: String)
    ensures
        s@ == (if was_there {
            "Unloaded and removed "@ + plist_path@
        } else {
            plist_path@ + " not installed — nothing to do"@
        }),
{
    if was_there {
        concat("Unloaded and removed ", plist_path)
    } else {
        concat(plist_path, " not installed — nothing to do")
    }
}

/// What to tell where launchd does not know the service.
pub fn not_loaded(target: &str, stderr: &str) -> (s: String)
    ensures
        s@ == target@ + " is not loaded ("@ + trim_spec(stderr@) + ")"@,
{
    let mut s = target.to_owned();
    s.append(" is not loaded (");
    s.append(trim(stderr).as_str());
    s.append(")");
    s
}

/// What to tell where there are no logs yet; nothing where there is one.
pub fn no_logs(log_dir: &str, stdout_there: bool, stderr_there: bool) -> (r: Option<String>)
    ensures
        match r {
            Some(s) => !stdout_there && !stderr_there && s@ == "No logs at "@ + log_dir@
                + " yet — start the service first."@,
            None => stdout_there || stderr_there,
        },
{
    if stdout_there || stderr_there {
        return None;
    }
    let mut s = "No logs at ".to_owned();
    s.append(log_dir);
    s.append(" yet — start the service first.");
    Some(s)
}

proof fn lemma_replaced(s: Seq<char>, from: char, to: Seq<char>, c: char)
    requires
        !to.contains(c),
        c == from || !s.contains(c),
    ensures
        !replace_char_spec(s, from, to).contains(c),
    decreases s.len(),
{
    if s.len() > 0 {
        let rest = s.drop_last();
        assert forall|i: int| 0 <= i < rest.len() implies rest[i] != c || c == from by {
            assert(rest[i] == s[i]);
        }
        lemma_replaced(rest, from, to, c);
        let head = replace_char_spec(rest, from, to);
        let tail = if s.last() == from {
            to
        } else {
            seq![s.last()]
        };
        assert(s.contains(s.last())) by {
            assert(s[s.len() - 1] == s.last());
        }
        assert forall|i: int| 0 <= i < (head + tail).len() implies (head + tail)[i] != c by {
            if i < head.len() {
                assert(head.contains(head[i]));
            } else {
                assert(tail.contains(tail[i - head.len()]));
            }
        }
    }
}

/// No value of a variable can open or close an element of the description.
pub proof fn escaped_text_has_no_markup(s: Seq<char>)
    ensures
        !escaped(s).contains('<'),
        !escaped(s).contains('>'),
{
    reveal_strlit("&amp;");
    reveal_strlit("&lt;");
    reveal_strlit("&gt;");
    let a = replace_char_spec(s, '&', "&amp;"@);
    let b = replace_char_spec(a, '<', "&lt;"@);
    lemma_replaced(a, '<', "&lt;"@, '<');
    lemma_replaced(b, '>', "&gt;"@, '<');
    lemma_replaced(b, '>', "&gt;"@, '>');
}

} // verus!
