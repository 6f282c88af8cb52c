//! Setting the search up for an editor, and as a service.
use crate::commands::daemon_utils::text_pair;
use crate::commands::index::{config_filename, project_dir, single_name};
use crate::commands::integrate::{
    any_failed, backup_name, carries_out, decide_mcp, entry_tree, is_current, mcp_status,
    servers_of, summary_of, with_entry, IntegrateOutcome, McpDecision, McpStep, StatusView,
};
use crate::commands::service::{
    domain_of, env_entries, env_entry, env_section, escaped, log_dir_spec, plist_arguments,
    plist_body, plist_lifecycle, plist_path_spec, service_error, ServiceAction,
};
use crate::json::{member, parsed_json, pretty_text, text_at, JsonTree};
use crate::laws::checkup::{middle_stands_in_the_whole, stands_in};
use crate::laws::text::{only_the_character_is_replaced, replacing_goes_character_by_character};
use crate::paths::{file_name_spec, join_path_spec};
use crate::text::{decimal, join_spec, replace_char_spec};
use vstd::prelude::*;

verus! {

// ---------------------------------------------------------------------------
// The server file
// ---------------------------------------------------------------------------

/// The entry of the server names the program, lets it serve, and describes it.
pub proof fn entry_starts_the_server()
    ensures
        text_at(entry_tree(), "command"@) == Some("trusty-search"@),
        member(entry_tree(), "args"@) matches Some(JsonTree::Array(args)) && args.len() == 1
            && args[0] == JsonTree::Text("serve"@),
        text_at(entry_tree(), "description"@) is Some,
{
    reveal_strlit("command");
    reveal_strlit("args");
    reveal_strlit("description");
    assert("command"@.len() == 7 && "args"@.len() == 4 && "description"@.len() == 11);
}

/// A file that cannot be read or understood is left alone, with the reason. One that
/// lists the server as wanted is left alone too. Any other is written: with a copy of
/// what it held where it was there, and with the entry added to what it held. A dry
/// run only announces that.
pub proof fn server_file_is_written_where_it_has_to_be(
    content: Seq<char>,
    doc: Map<Seq<char>, JsonTree>,
    error: Seq<char>,
    dry_run: bool,
)
    ensures
        decide_mcp(Some(Err(error)), dry_run) == McpDecision::Failed("read: "@ + error),
        parsed_json(content) matches Err(e) ==> decide_mcp(Some(Ok(content)), dry_run)
            == McpDecision::Failed("parse: "@ + e),
        parsed_json(content) matches Ok(v) ==> (!(v is Object) ==> decide_mcp(
            Some(Ok(content)),
            dry_run,
        ) is Failed),
        parsed_json(content) == Ok::<JsonTree, Seq<char>>(JsonTree::Object(doc)) ==> {
            let d = decide_mcp(Some(Ok(content)), dry_run);
            &&& is_current(doc) ==> d == McpDecision::Skipped
            &&& !is_current(doc) && dry_run ==> d == McpDecision::Planned
            &&& !is_current(doc) && !dry_run ==> (d matches McpDecision::Write { backup, rendered }
                && backup == Some(content) && (pretty_text(JsonTree::Object(with_entry(doc)))
                matches Ok(text) ==> rendered == Ok::<Seq<char>, Seq<char>>(text + seq!['\n'])) && (
            pretty_text(JsonTree::Object(with_entry(doc))) matches Err(e) ==> rendered == Err::<
                Seq<char>,
                Seq<char>,
            >(e)))
        },
        dry_run ==> decide_mcp(None, dry_run) == McpDecision::Planned,
        !dry_run ==> (decide_mcp(None, dry_run) matches McpDecision::Write { backup, rendered }
            && backup is None),
{
    reveal_strlit("\n");
    assert("\n"@ =~= seq!['\n']);
    let none = crate::json::empty_members();
    assert(!is_current(none));
}

/// A document is as wanted exactly where it lists the server under its name with the
/// wanted entry.
pub proof fn document_is_current_with_the_entry(
    doc: Map<Seq<char>, JsonTree>,
    servers: Map<Seq<char>, JsonTree>,
)
    requires
        doc.contains_key("mcpServers"@),
        doc["mcpServers"@] == JsonTree::Object(servers),
    ensures
        is_current(doc) <==> servers.contains_key("trusty-search"@) && servers["trusty-search"@]
            == entry_tree(),
        servers_of(doc) == servers,
{
}

/// A step does to the file what was decided, under the file's path.
pub proof fn steps_do_what_was_decided(step: McpStep, path: Seq<char>, d: McpDecision)
    requires
        carries_out(step, path, d),
    ensures
        d is Write <==> step is Write,
        step matches McpStep::Done(o) ==> o.path@ == path,
        d matches McpDecision::Failed(m) ==> (step matches McpStep::Done(o) && (o.status@
            matches StatusView::Failed(n) && n == m)),
        d is Skipped ==> (step matches McpStep::Done(o) && o.status@ is Skipped),
        d is Planned ==> (step matches McpStep::Done(o) && o.status@ is Planned),
        d matches McpDecision::Write { backup, rendered } ==> (step matches McpStep::Write {
            backup: b,
            rendered: r,
        } && (backup is Some <==> b is Some) && (b matches Some(c) ==> backup == Some(c@)) && (
        r matches Ok(t) ==> rendered == Ok::<Seq<char>, Seq<char>>(t@)) && (r matches Err(e)
            ==> rendered == Err::<Seq<char>, Seq<char>>(e@))),
{
}

/// A file counts as updated only where the copy, the text and the file were all
/// written, and as created only where there was nothing to copy; otherwise it failed,
/// and the first reason is told.
pub proof fn only_full_success_counts(
    backup: Option<Result<Seq<char>, Seq<char>>>,
    rendered: Result<(), Seq<char>>,
    written: Result<(), Seq<char>>,
)
    ensures
        mcp_status(backup, rendered, written) is Updated <==> (backup matches Some(Ok(_)))
            && rendered is Ok && written is Ok,
        mcp_status(backup, rendered, written) is Created <==> backup is None && rendered is Ok
            && written is Ok,
        mcp_status(backup, rendered, written) is Failed <==> (backup matches Some(Err(_)))
            || rendered is Err || written is Err,
        mcp_status(backup, rendered, written) matches StatusView::Updated(b) ==> backup == Some(
            Ok::<Seq<char>, Seq<char>>(b),
        ),
        backup matches Some(Err(e)) ==> mcp_status(backup, rendered, written)
            == StatusView::Failed("backup: "@ + e),
        !(backup matches Some(Err(_))) ==> (rendered matches Err(e) ==> mcp_status(
            backup,
            rendered,
            written,
        ) == StatusView::Failed("serialize: "@ + e)),
        !(backup matches Some(Err(_))) && rendered is Ok ==> (written matches Err(e)
            ==> mcp_status(backup, rendered, written) == StatusView::Failed("write: "@ + e)),
{
}

/// A copy is named after its file and the time: copies made at different times have
/// different names.
pub proof fn copies_are_named_by_file_and_time(source: Seq<char>, name: Seq<char>, time: Seq<char>)
    requires
        file_name_spec(source) == Some(name),
    ensures
        name.is_prefix_of(backup_name(source, time)),
        stands_in(time, backup_name(source, time)),
        backup_name(source, time).len() == name.len() + time.len() + 8,
        backup_name(source, time).skip(backup_name(source, time).len() - 7) == ".backup"@,
{
    reveal_strlit(".");
    reveal_strlit(".backup");
    let b = backup_name(source, time);
    assert(name =~= b.subrange(0, name.len() as int));
    assert(b =~= (name + "."@) + time + ".backup"@);
    middle_stands_in_the_whole(name + "."@, time, ".backup"@);
    assert(b.skip(b.len() - 7) =~= ".backup"@);
}

/// Setting up fails where one file failed, whichever it is.
pub proof fn one_failure_is_enough(outcomes: Seq<IntegrateOutcome>, i: int)
    requires
        0 <= i < outcomes.len(),
    ensures
        outcomes[i].status is Failed ==> any_failed(outcomes),
        any_failed(outcomes) ==> exists|j: int|
            0 <= j < outcomes.len() && (#[trigger] outcomes[j]).status is Failed,
{
}

/// What became of a file can be told by its sign and note: success, repetition,
/// intention and failure have different signs, and a failure has its reason.
pub proof fn signs_tell_outcomes_apart(s: StatusView)
    ensures
        s is Created || s is Updated <==> summary_of(s).0 == '✓',
        s is Skipped <==> summary_of(s).0 == '↻',
        s is Planned <==> summary_of(s).0 == '·',
        s is Failed <==> summary_of(s).0 == '✗',
        s matches StatusView::Failed(m) ==> stands_in(m, summary_of(s).1),
        s matches StatusView::Updated(b) ==> summary_of(s).2 == Some(b),
        !(s is Updated) ==> summary_of(s).2 is None,
{
    if let StatusView::Failed(m) = s {
        let none = Seq::<char>::empty();
        assert("failed: "@ + m =~= "failed: "@ + m + none);
        middle_stands_in_the_whole("failed: "@, m, none);
    }
}

// ---------------------------------------------------------------------------
// The service
// ---------------------------------------------------------------------------

proof fn lemma_replace_absent(s: Seq<char>, from: char, to: Seq<char>)
    requires
        !s.contains(from),
    ensures
        replace_char_spec(s, from, to) == s,
    decreases s.len(),
{
    if s.len() > 0 {
        let head = s.drop_last();
        assert(!head.contains(from)) by {
            if head.contains(from) {
                let i = choose|i: int| 0 <= i < head.len() && head[i] == from;
                assert(s[i] == from);
            }
        }
        lemma_replace_absent(head, from, to);
        assert(s[s.len() - 1] != from);
        assert(head + seq![s.last()] =~= s);
    }
}

/// Texts are escaped character by character.
pub proof fn escaping_goes_character_by_character(a: Seq<char>, b: Seq<char>)
    ensures
        escaped(a + b) == escaped(a) + escaped(b),
{
    let x = replace_char_spec(a, '&', "&amp;"@);
    let y = replace_char_spec(b, '&', "&amp;"@);
    replacing_goes_character_by_character(a, b, '&', "&amp;"@);
    replacing_goes_character_by_character(x, y, '<', "&lt;"@);
    replacing_goes_character_by_character(
        replace_char_spec(x, '<', "&lt;"@),
        replace_char_spec(y, '<', "&lt;"@),
        '>',
        "&gt;"@,
    );
}

/// The three characters that XML reserves become their entities, and every other
/// character stays as it is.
pub proof fn reserved_characters_become_entities(c: char)
    ensures
        c == '&' ==> escaped(seq![c]) == "&amp;"@,
        c == '<' ==> escaped(seq![c]) == "&lt;"@,
        c == '>' ==> escaped(seq![c]) == "&gt;"@,
        c != '&' && c != '<' && c != '>' ==> escaped(seq![c]) == seq![c],
{
    reveal_strlit("&amp;");
    reveal_strlit("&lt;");
    reveal_strlit("&gt;");
    assert("&amp;"@ =~= seq!['&', 'a', 'm', 'p', ';']);
    assert("&lt;"@ =~= seq!['&', 'l', 't', ';']);
    only_the_character_is_replaced(c, '&', "&amp;"@);
    let one = replace_char_spec(seq![c], '&', "&amp;"@);
    if c == '&' {
        lemma_replace_absent(one, '<', "&lt;"@);
        lemma_replace_absent(one, '>', "&gt;"@);
    } else {
        only_the_character_is_replaced(c, '<', "&lt;"@);
        let two = replace_char_spec(one, '<', "&lt;"@);
        if c == '<' {
            lemma_replace_absent(two, '>', "&gt;"@);
        } else {
            only_the_character_is_replaced(c, '>', "&gt;"@);
        }
    }
}

/// Every variable has its entry, in order, behind that of the model cache, which is
/// there where the home directory is known; an entry holds the name of the variable
/// and its value, escaped.
pub proof fn every_variable_is_set(home: Option<Seq<char>>, vars: Seq<(String, String)>, i: int)
    requires
        0 <= i < vars.len(),
    ensures
        ({
            let entries = env_entries(home, vars);
            let at: int = if home is Some {
                i + 1
            } else {
                i
            };
            &&& entries.len() == vars.len() + (if home is Some {
                1int
            } else {
                0
            })
            &&& entries[at] == env_entry(vars[i].0@, vars[i].1@)
            &&& stands_in(vars[i].0@, entries[at])
            &&& stands_in(escaped(vars[i].1@), entries[at])
            &&& home matches Some(h) ==> entries[0] == env_entry(
                "HF_HOME"@,
                join_path_spec(join_path_spec(h, ".cache"@), "huggingface"@),
            )
        }),
{
    let key = vars[i].0@;
    let value = escaped(vars[i].1@);
    let e = env_entry(key, vars[i].1@);
    let tail = "</key>\n        <string>"@ + value + "</string>"@;
    assert(e =~= "        <key>"@ + key + tail);
    middle_stands_in_the_whole("        <key>"@, key, tail);
    let head = "        <key>"@ + key + "</key>\n        <string>"@;
    assert(e =~= head + value + "</string>"@);
    middle_stands_in_the_whole(head, value, "</string>"@);
}

proof fn lemma_joined(pieces: Seq<Seq<char>>, sep: Seq<char>, i: int)
    requires
        0 <= i < pieces.len(),
    ensures
        stands_in(pieces[i], join_spec(pieces, sep)),
    decreases pieces.len(),
{
    let none = Seq::<char>::empty();
    let all = join_spec(pieces, sep);
    if pieces.len() == 1 {
        assert(all =~= none + pieces[0] + none);
        middle_stands_in_the_whole(none, pieces[0], none);
    } else {
        let head = pieces.drop_last();
        let before = join_spec(head, sep);
        if i < head.len() {
            lemma_joined(head, sep, i);
            assert(head[i] == pieces[i]);
            lemma_in_front(pieces[i], before, sep + pieces.last());
            assert(all =~= before + (sep + pieces.last()));
        } else {
            assert(all =~= (before + sep) + pieces[i] + none);
            middle_stands_in_the_whole(before + sep, pieces[i], none);
        }
    }
}

proof fn lemma_in_front(part: Seq<char>, s: Seq<char>, more: Seq<char>)
    requires
        stands_in(part, s),
    ensures
        stands_in(part, s + more),
        stands_in(part, more + s),
{
    let at = choose|at: int| #[trigger] crate::laws::checkup::stands_in_at(part, s, at);
    assert((s + more).subrange(at, at + part.len()) =~= part);
    assert(crate::laws::checkup::stands_in_at(part, s + more, at));
    let k = at + more.len();
    assert((more + s).subrange(k, k + part.len()) =~= part);
    assert(crate::laws::checkup::stands_in_at(part, more + s, k));
}

/// The description of the service holds the program, the two logs and the
/// environment; the environment holds the entry of every variable, and is empty where
/// there is none.
pub proof fn description_holds_everything(
    exe: Seq<char>,
    log_dir: Seq<char>,
    home: Option<Seq<char>>,
    vars: Seq<(String, String)>,
    i: int,
)
    ensures
        ({
            let env = env_section(home, vars);
            let body = plist_body(exe, log_dir, env);
            &&& stands_in(exe, body)
            &&& stands_in(env, body)
            &&& stands_in(join_path_spec(log_dir, "stdout.log"@), body)
            &&& stands_in(join_path_spec(log_dir, "stderr.log"@), body)
            &&& 0 <= i < env_entries(home, vars).len() ==> stands_in(env_entries(home, vars)[i], env)
            &&& env_entries(home, vars).len() == 0 ==> env.len() == 0
        }),
{
    let env = env_section(home, vars);
    let body = plist_body(exe, log_dir, env);
    let entries = env_entries(home, vars);
    if 0 <= i < entries.len() {
        let joined = join_spec(entries, "\n"@);
        lemma_joined(entries, "\n"@, i);
        let head = "    <key>EnvironmentVariables</key>\n    <dict>\n"@;
        lemma_in_front(entries[i], joined, head);
        lemma_in_front(entries[i], head + joined, "\n    </dict>\n"@);
    }
    let t0 = crate::commands::service::plist_head() + crate::commands::service::launchd_label()
        + crate::commands::service::plist_program();
    let t1 = crate::commands::service::plist_arguments();
    let t2 = crate::commands::service::plist_lifecycle();
    let t3 = crate::commands::service::plist_stderr();
    let t4 = crate::commands::service::plist_tail();
    let out = join_path_spec(log_dir, "stdout.log"@);
    let err = join_path_spec(log_dir, "stderr.log"@);
    let h1 = t0 + exe + t1;
    let h2 = h1 + env + t2;
    let h3 = h2 + out + t3;
    assert(body =~= h3 + err + t4);
    middle_stands_in_the_whole(h3, err, t4);
    let r2 = t3 + err + t4;
    assert(body =~= h2 + out + r2);
    middle_stands_in_the_whole(h2, out, r2);
    let r1 = t2 + out + r2;
    assert(body =~= h1 + env + r1);
    middle_stands_in_the_whole(h1, env, r1);
    let r0 = t1 + env + r1;
    assert(body =~= t0 + exe + r0);
    middle_stands_in_the_whole(t0, exe, r0);
}

/// The daemon is started in the foreground as soon as the description is loaded, and
/// started again only after it has failed.
pub proof fn daemon_is_started_again_after_failures()
    ensures
        stands_in(
            "<string>start</string>\n        <string>--foreground</string>"@,
            plist_arguments(),
        ),
        stands_in("<key>RunAtLoad</key>\n    <true/>"@, plist_lifecycle()),
        stands_in("<key>SuccessfulExit</key>\n        <false/>"@, plist_lifecycle()),
{
    reveal_strlit(
        "</string>\n        <string>start</string>\n        <string>--foreground</string>\n    </array>\n",
    );
    reveal_strlit("<string>start</string>\n        <string>--foreground</string>");
    let part = "<string>start</string>\n        <string>--foreground</string>"@;
    assert(plist_arguments().subrange(18, 18 + part.len() as int) =~= part);
    assert(crate::laws::checkup::stands_in_at(part, plist_arguments(), 18));
    reveal_strlit(
        "    <key>RunAtLoad</key>\n    <true/>\n    <!-- KeepAlive=SuccessfulExit:false means launchd only restarts the daemon\n         on a non-zero exit. The `start` command exits 0 when a live daemon is\n         already running (idempotent fast-path); without this, launchd would\n         immediately re-spawn and crash-loop on the existing lockfile. -->\n    <key>KeepAlive</key>\n    <dict>\n        <key>SuccessfulExit</key>\n        <false/>\n    </dict>\n    <key>ThrottleInterval</key>\n    <integer>30</integer>\n    <key>StandardOutPath</key>\n    <string>",
    );
    reveal_strlit("<key>RunAtLoad</key>\n    <true/>");
    reveal_strlit("<key>SuccessfulExit</key>\n        <false/>");
    let run = "<key>RunAtLoad</key>\n    <true/>"@;
    assert(plist_lifecycle().subrange(4, 4 + run.len() as int) =~= run);
    assert(crate::laws::checkup::stands_in_at(run, plist_lifecycle(), 4));
    let exit = "<key>SuccessfulExit</key>\n        <false/>"@;
    assert(plist_lifecycle().subrange(391, 391 + exit.len() as int) =~= exit);
    assert(crate::laws::checkup::stands_in_at(exit, plist_lifecycle(), 391));
}

/// The service is there on one platform only; installing it needs the path of the
/// program, and everything but its status needs the home directory.
pub proof fn service_needs_its_paths(
    action: ServiceAction,
    exe: Result<Seq<char>, Seq<char>>,
    home: Option<Seq<char>>,
)
    ensures
        service_error(action, false, exe, home) is Some,
        service_error(ServiceAction::Status, true, exe, home) is None,
        action != ServiceAction::Status && home is None ==> service_error(action, true, exe, home)
            is Some,
        exe matches Err(e) ==> (service_error(ServiceAction::Install, true, exe, home) matches Some(
            m,
        ) && stands_in(e, m)),
        exe is Ok && home is Some ==> service_error(action, true, exe, home) is None,
        home is Some && action != ServiceAction::Install ==> service_error(action, true, exe, home)
            is None,
{
    if let Err(e) = exe {
        let none = Seq::<char>::empty();
        let head = "could not resolve current exe: "@;
        assert(head + e =~= head + e + none);
        middle_stands_in_the_whole(head, e, none);
    }
}

/// The description lies among the agents of the user, the logs among the user's logs,
/// and the domain is that of the user.
pub proof fn service_belongs_to_the_user(home: Seq<char>, uid: u32)
    requires
        home.len() > 0,
        home.last() != '/',
    ensures
        plist_path_spec(home) == home + "/Library/LaunchAgents/com.trusty.trusty-search.plist"@,
        log_dir_spec(home) == home + "/Library/Logs/trusty-search"@,
        domain_of(uid) == "gui/"@ + decimal(uid as nat),
{
    reveal_strlit("Library");
    reveal_strlit("LaunchAgents");
    reveal_strlit("Logs");
    reveal_strlit("trusty-search");
    reveal_strlit(".plist");
    reveal_strlit("com.trusty.trusty-search");
    reveal_strlit("/Library/LaunchAgents/com.trusty.trusty-search.plist");
    reveal_strlit("/Library/Logs/trusty-search");
    let one = join_path_spec(home, "Library"@);
    assert("Library"@[0] == 'L' && "Library"@.len() == 7);
    assert(one =~= home.push('/') + "Library"@);
    assert(one.last() == 'y');
    let agents = join_path_spec(one, "LaunchAgents"@);
    assert("LaunchAgents"@[0] == 'L' && "LaunchAgents"@.len() == 12);
    assert(agents =~= one.push('/') + "LaunchAgents"@);
    assert(agents.last() == 's');
    let name = "com.trusty.trusty-search"@ + ".plist"@;
    assert(name[0] == 'c');
    assert(plist_path_spec(home) =~= agents.push('/') + name);
    assert(plist_path_spec(home) =~= home
        + "/Library/LaunchAgents/com.trusty.trusty-search.plist"@);
    let logs = join_path_spec(one, "Logs"@);
    assert("Logs"@[0] == 'L' && "Logs"@.len() == 4);
    assert(logs =~= one.push('/') + "Logs"@);
    assert(logs.last() == 's');
    assert("trusty-search"@[0] == 't');
    assert(log_dir_spec(home) =~= logs.push('/') + "trusty-search"@);
    assert(log_dir_spec(home) =~= home + "/Library/Logs/trusty-search"@);
}

// ---------------------------------------------------------------------------
// Requests
// ---------------------------------------------------------------------------

/// A request of two texts holds both of them under their keys.
pub proof fn requests_hold_their_texts(
    k: Seq<char>,
    v: Seq<char>,
    l: Seq<char>,
    w: Seq<char>,
)
    requires
        k != l,
    ensures
        text_at(text_pair(k, v, l, w), k) == Some(v),
        text_at(text_pair(k, v, l, w), l) == Some(w),
{
}

/// What was named on the command line goes before what is found: the directory before
/// the working directory, and the name before that of the directory.
pub proof fn given_names_go_first(given: Seq<char>, dir: Seq<char>, cwd: Seq<char>)
    ensures
        project_dir(Some(given), cwd) == given,
        project_dir(None, cwd) == cwd,
        single_name(Some(given), dir) == given,
        file_name_spec(dir) matches Some(base) ==> single_name(None, dir) == base,
        config_filename() == "trusty-search.yaml"@,
{
}

} // verus!
