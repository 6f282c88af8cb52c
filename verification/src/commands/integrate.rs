//! Wiring the search tools into an editor.
//!
//! The files are read and written by the caller; what is to be written, what is
//! left alone and what is reported is decided here.
use crate::json::{
    alike, as_members, begins_with_raw_key, copy_members, empty_members, equal_json, find_member,
    holds_texts_only, json_array, json_members, json_object, json_text, json_view, no_members,
    parse_json, parsed_json, pretty_json, pretty_text, readable, reads_back, set_member, trees,
    JsonTree, MAX_NESTING, RAW_VALUE_KEY,
};
use crate::paths::{
    file_name, file_name_spec, join_path, join_path_spec, text_key, with_file_name,
    with_file_name_spec,
};
use crate::sorting::lex_le;
use crate::text::concat;
use vstd::prelude::*;

verus! {

// ---------------------------------------------------------------------------
// Texts
// ---------------------------------------------------------------------------

/// The key of the server entry.
pub const TRUSTY_KEY: &'static str = "trusty-search";

/// The description of the server entry.
pub const TRUSTY_DESCRIPTION: &'static str = "Hybrid code search — BM25 + vector + knowledge graph";

/// The name of the editor's server file.
pub const MCP_FILE_NAME: &'static str = "mcp.json";

/// Where the rules file lies below a project.
pub const RULES_REL_PATH: &'static str = ".cursor/rules/trusty-search.mdc";

/// The directory of the copies that are made before a file is changed.
pub const BACKUP_DIR_NAME: &'static str = ".mcp-installer-backups";

/// The content of the rules file.
pub const RULES_MDC_CONTENT: &'static str = "---\ndescription: |\n  trusty-search is available as an MCP tool for hybrid code search.\n  Use it for semantic, lexical, and graph-expanded queries over the indexed codebase.\nglobs:\n  - \"**/*\"\nalwaysApply: true\n---\n\n# trusty-search Code Search\n\nThis project has trusty-search MCP tools available. Prefer them over grep for non-trivial queries.\n\n- `search_code` — hybrid BM25 + vector search with KG expansion (best for most queries)\n- `search_similar` — find code similar to a given file/function\n- `reindex` — trigger a full reindex of this project\n- `index_status` — check chunk count and index health\n- `search_health` — confirm the daemon is running\n\n## When to use\n- Finding function definitions → `search_code \"fn <name>\"` with Definition intent\n- Exploring callers of a function → `search_code \"<name> callers\"` with Usage intent\n- Conceptual queries (\"how does auth work\") → `search_code` with Conceptual intent\n- Finding similar implementations → `search_similar`\n";

// ---------------------------------------------------------------------------
// Types
// ---------------------------------------------------------------------------

/// The editor to integrate with.
#[derive(Debug, Clone, Copy, PartialEq, Eq, Structural)]
pub enum IntegrateTarget {
    Cursor,
}

/// What became of one file.
#[derive(Debug, Clone, PartialEq, Eq)]
pub enum FileStatus {
    /// It was written and had not been there.
    Created,
    /// It was changed; the path is that of the copy made before.
    Updated(String),
    /// It needed no change.
    Skipped,
    /// It would have been written.
    Planned,
    /// It could not be read, understood or written.
    Failed(String),
}

/// A file and what became of it.
#[derive(Debug)]
pub struct IntegrateOutcome {
    pub path: String,
    pub status: FileStatus,
}

/// What an outcome says of its file.
#[verifier::ext_equal]
pub enum StatusView {
    Created,
    Updated(Seq<char>),
    Skipped,
    Planned,
    Failed(Seq<char>),
}

impl View for FileStatus {
    type V = StatusView;

    open spec fn view(&self) -> StatusView {
        match *self {
            FileStatus::Created => StatusView::Created,
            FileStatus::Updated(backup) => StatusView::Updated(backup@),
            FileStatus::Skipped => StatusView::Skipped,
            FileStatus::Planned => StatusView::Planned,
            FileStatus::Failed(message) => StatusView::Failed(message@),
        }
    }
}

impl IntegrateOutcome {
    /// Whether this is the outcome for the file.
    pub open spec fn is(&self, path: Seq<char>, status: StatusView) -> bool {
        self.path@ == path && self.status@ == status
    }

    /// The outcome of a file that failed.
    pub fn failed(path: &str, message: String) -> (o: IntegrateOutcome)
        ensures
            o.is(path@, StatusView::Failed(message@)),
    {
        IntegrateOutcome { path: path.to_owned(), status: FileStatus::Failed(message) }
    }

    fn of(path: &str, status: FileStatus) -> (o: IntegrateOutcome)
        ensures
            o.is(path@, status@),
    {
        IntegrateOutcome { path: path.to_owned(), status }
    }
}

// ---------------------------------------------------------------------------
// The server entry
// ---------------------------------------------------------------------------

/// The server entry.
pub open spec fn entry_tree() -> JsonTree {
    JsonTree::Object(
        empty_members()
            .insert("command"@, JsonTree::Text(TRUSTY_KEY@))
            .insert("args"@, JsonTree::Array(seq![JsonTree::Text("serve"@)]))
            .insert("description"@, JsonTree::Text(TRUSTY_DESCRIPTION@)),
    )
}

/// The servers that a document lists; none where it has no list of them.
pub open spec fn servers_of(doc: Map<Seq<char>, JsonTree>) -> Map<Seq<char>, JsonTree> {
    if doc.contains_key("mcpServers"@) {
        match doc["mcpServers"@] {
            JsonTree::Object(servers) => servers,
            _ => empty_members(),
        }
    } else {
        empty_members()
    }
}

/// Whether the document lists the server with exactly the wanted entry.
pub open spec fn is_current(doc: Map<Seq<char>, JsonTree>) -> bool {
    servers_of(doc).contains_key(TRUSTY_KEY@) && servers_of(doc)[TRUSTY_KEY@] == entry_tree()
}

/// The document with the wanted entry, and everything else as it was.
pub open spec fn with_entry(doc: Map<Seq<char>, JsonTree>) -> Map<Seq<char>, JsonTree> {
    doc.insert(
        "mcpServers"@,
        JsonTree::Object(servers_of(doc).insert(TRUSTY_KEY@, entry_tree())),
    )
}

fn trusty_server_entry() -> (v: serde_json::Value)
    ensures
        json_view(v) == entry_tree(),
        holds_texts_only(json_view(v)),
{
    let mut args: Vec<serde_json::Value> = Vec::new();
    args.push(json_text("serve".to_owned()));
    assert(trees(args@) =~= seq![JsonTree::Text("serve"@)]);
    let mut m = no_members();
    set_member(&mut m, "command", json_text(TRUSTY_KEY.to_owned()));
    set_member(&mut m, "args", json_array(args));
    set_member(&mut m, "description", json_text(TRUSTY_DESCRIPTION.to_owned()));
    json_object(m)
}

/// Sets the server entry of a document; says whether that changed anything.
pub fn upsert_trusty_entry(doc: &mut serde_json::Map<String, serde_json::Value>) -> (changed: bool)
    ensures
        changed == !is_current(json_members(*old(doc))),
        json_members(*final(doc)) == (if changed {
            with_entry(json_members(*old(doc)))
        } else {
            json_members(*old(doc))
        }),
{
    let desired = trusty_server_entry();
    let mut servers = match find_member(doc, "mcpServers") {
        Some(v) => match as_members(v) {
            Some(m) => copy_members(m),
            None => no_members(),
        },
        None => no_members(),
    };
    assert(json_members(servers) == servers_of(json_members(*old(doc))));
    let current = match find_member(&servers, TRUSTY_KEY) {
        Some(present) => equal_json(present, &desired),
        None => false,
    };
    if current {
        return false;
    }
    set_member(&mut servers, TRUSTY_KEY, desired);
    set_member(doc, "mcpServers", json_object(servers));
    true
}

// ---------------------------------------------------------------------------
// The server file
// ---------------------------------------------------------------------------

/// What is to be done about the server file.
#[verifier::ext_equal]
pub enum McpDecision {
    Failed(Seq<char>),
    Skipped,
    Planned,
    /// Copy the old content, if any, and write the new one.
    Write { backup: Option<Seq<char>>, rendered: Result<Seq<char>, Seq<char>> },
}

/// What is to be done where the file holds, or will hold, these members.
pub open spec fn decide_members(
    doc: Map<Seq<char>, JsonTree>,
    original: Option<Seq<char>>,
    dry_run: bool,
) -> McpDecision {
    if is_current(doc) {
        McpDecision::Skipped
    } else if dry_run {
        McpDecision::Planned
    } else {
        McpDecision::Write {
            backup: original,
            rendered: match pretty_text(JsonTree::Object(with_entry(doc))) {
                Ok(s) => Ok(s + "\n"@),
                Err(e) => Err(e),
            },
        }
    }
}

/// What is to be done about the server file, from what reading it gave: nothing
/// where it does not exist, else its content or the message of the read error.
pub open spec fn decide_mcp(
    existing: Option<Result<Seq<char>, Seq<char>>>,
    dry_run: bool,
) -> McpDecision {
    match existing {
        None => decide_members(empty_members(), None, dry_run),
        Some(Err(e)) => McpDecision::Failed("read: "@ + e),
        Some(Ok(content)) => match parsed_json(content) {
            Err(e) => McpDecision::Failed("parse: "@ + e),
            Ok(JsonTree::Object(doc)) => decide_members(doc, Some(content), dry_run),
            Ok(_) => McpDecision::Failed("top-level JSON value is not an object"@),
        },
    }
}

/// Whether what the file holds, once it is printed, is read as the same again.
pub open spec fn readable_file(existing: Option<Result<Seq<char>, Seq<char>>>) -> bool {
    match existing {
        Some(Ok(content)) => match parsed_json(content) {
            Ok(tree) => readable(tree, MAX_NESTING as nat),
            Err(_) => true,
        },
        _ => true,
    }
}

/// What reading a file gave.
pub open spec fn read_view(r: Option<Result<String, String>>) -> Option<
    Result<Seq<char>, Seq<char>>,
> {
    match r {
        None => None,
        Some(Ok(s)) => Some(Ok(s@)),
        Some(Err(e)) => Some(Err(e@)),
    }
}

/// The next step for the server file.
pub enum McpStep {
    /// There is nothing to write.
    Done(IntegrateOutcome),
    /// The old content is to be copied, if there is one; then the new content is
    /// to be written, unless it could not be rendered.
    Write { backup: Option<String>, rendered: Result<String, String> },
}

/// Whether the step carries out the decision for the file.
pub open spec fn carries_out(step: McpStep, path: Seq<char>, d: McpDecision) -> bool {
    match d {
        McpDecision::Failed(m) => step matches McpStep::Done(o) && o.is(path, StatusView::Failed(m)),
        McpDecision::Skipped => step matches McpStep::Done(o) && o.is(path, StatusView::Skipped),
        McpDecision::Planned => step matches McpStep::Done(o) && o.is(path, StatusView::Planned),
        McpDecision::Write { backup, rendered } => step matches McpStep::Write {
            backup: b,
            rendered: r,
        } && crate::text::opt_text(b) == backup && (match r {
            Ok(s) => rendered == Ok::<Seq<char>, Seq<char>>(s@),
            Err(e) => rendered == Err::<Seq<char>, Seq<char>>(e@),
        }),
    }
}

/// Decides about the server file: leaves one that is current alone, plans the
/// change in a dry run, and otherwise hands out what to write.
pub fn upsert_mcp_config(
    path: &str,
    existing: Option<Result<String, String>>,
    dry_run: bool,
) -> (step: McpStep)
    ensures
        carries_out(step, path@, decide_mcp(read_view(existing), dry_run)),
        // Once the text is written, integrating again changes nothing.
        readable_file(read_view(existing)) ==> (step matches McpStep::Write { backup, rendered } ==> (
        rendered matches Ok(text) ==> decide_mcp(Some(Ok(text@)), false) is Skipped && decide_mcp(
            Some(Ok(text@)),
            true,
        ) is Skipped)),
{
    let (mut doc, original) = match existing {
        None => (no_members(), None),
        Some(Err(e)) => {
            return McpStep::Done(IntegrateOutcome::failed(path, concat("read: ", e.as_str())));
        },
        Some(Ok(content)) => match parse_json(content.as_str()) {
            Err(e) => {
                return McpStep::Done(IntegrateOutcome::failed(path, concat("parse: ", e.as_str())));
            },
            Ok(root) => match as_members(&root) {
                Some(m) => (copy_members(m), Some(content)),
                None => {
                    return McpStep::Done(
                        IntegrateOutcome::failed(
                            path,
                            "top-level JSON value is not an object".to_owned(),
                        ),
                    );
                },
            },
        },
    };
    let ghost before = json_members(doc);
    let ghost kept = readable_file(read_view(existing));
    assert(kept ==> readable(JsonTree::Object(before), MAX_NESTING as nat));
    if !upsert_trusty_entry(&mut doc) {
        return McpStep::Done(IntegrateOutcome::of(path, FileStatus::Skipped));
    }
    if dry_run {
        return McpStep::Done(IntegrateOutcome::of(path, FileStatus::Planned));
    }
    proof {
        if kept {
            lemma_entry_is_readable(before);
        }
    }
    let rendered = match pretty_json(&json_object(doc)) {
        Ok(s) => {
            let text = concat(s.as_str(), "\n");
            proof {
                if kept {
                    lemma_read_back_is_current(text@, before);
                }
            }
            Ok(text)
        },
        Err(e) => Err(e),
    };
    McpStep::Write { backup: original, rendered }
}

/// What became of a server file that was to be written: the first failure, or
/// the copy that was made, or that the file is new.
pub open spec fn mcp_status(
    backup: Option<Result<Seq<char>, Seq<char>>>,
    rendered: Result<(), Seq<char>>,
    written: Result<(), Seq<char>>,
) -> StatusView {
    match (backup, rendered, written) {
        (Some(Err(e)), _, _) => StatusView::Failed("backup: "@ + e),
        (_, Err(e), _) => StatusView::Failed("serialize: "@ + e),
        (_, _, Err(e)) => StatusView::Failed("write: "@ + e),
        (Some(Ok(b)), Ok(_), Ok(_)) => StatusView::Updated(b),
        (None, Ok(_), Ok(_)) => StatusView::Created,
    }
}

/// The message of a result, if it failed.
pub open spec fn done_view(r: Result<(), String>) -> Result<(), Seq<char>> {
    match r {
        Ok(_) => Ok(()),
        Err(e) => Err(e@),
    }
}

/// The outcome of a server file that was to be written, from the copy (its path
/// or a message, where one was to be made), the rendering and the writing.
pub fn finish_mcp_upsert(
    path: &str,
    backup: Option<Result<String, String>>,
    rendered: Result<(), String>,
    written: Result<(), String>,
) -> (o: IntegrateOutcome)
    ensures
        o.is(
            path@,
            mcp_status(read_view(backup), done_view(rendered), done_view(written)),
        ),
{
    let kept = match backup {
        Some(Err(e)) => {
            return IntegrateOutcome::failed(path, concat("backup: ", e.as_str()));
        },
        Some(Ok(b)) => Some(b),
        None => None,
    };
    if let Err(e) = rendered {
        return IntegrateOutcome::failed(path, concat("serialize: ", e.as_str()));
    }
    if let Err(e) = written {
        return IntegrateOutcome::failed(path, concat("write: ", e.as_str()));
    }
    match kept {
        Some(b) => IntegrateOutcome::of(path, FileStatus::Updated(b)),
        None => IntegrateOutcome::of(path, FileStatus::Created),
    }
}

// ---------------------------------------------------------------------------
// The rules file
// ---------------------------------------------------------------------------

/// The next step for the rules file.
pub enum RulesStep {
    /// There is nothing to write.
    Done(IntegrateOutcome),
    /// The content is to be written.
    Write(String),
}

/// Decides about the rules file: one that exists is left alone unless the
/// change is forced, and nothing is written in a dry run.
pub fn write_rules_file(path: &str, existed: bool, dry_run: bool, force: bool) -> (step: RulesStep)
    ensures
        match step {
            RulesStep::Done(o) => ((existed && !force) || dry_run) && o.is(
                path@,
                if existed && !force {
                    StatusView::Skipped
                } else {
                    StatusView::Planned
                },
            ),
            RulesStep::Write(content) => !(existed && !force) && !dry_run && content@
                == RULES_MDC_CONTENT@,
        },
{
    if existed && !force {
        return RulesStep::Done(IntegrateOutcome::of(path, FileStatus::Skipped));
    }
    if dry_run {
        return RulesStep::Done(IntegrateOutcome::of(path, FileStatus::Planned));
    }
    RulesStep::Write(RULES_MDC_CONTENT.to_owned())
}

/// The outcome of a rules file that was to be written, from making its directory
/// (where it has one) and writing it.
pub fn finish_rules_file(
    path: &str,
    parent: Option<String>,
    made: Result<(), String>,
    written: Result<(), String>,
) -> (o: IntegrateOutcome)
    ensures
        o.is(
            path@,
            match (parent, done_view(made), done_view(written)) {
                (Some(dir), Err(e), _) => StatusView::Failed("mkdir "@ + dir@ + ": "@ + e),
                (_, _, Err(e)) => StatusView::Failed("write: "@ + e),
                _ => StatusView::Created,
            },
        ),
{
    match (parent, made) {
        (Some(dir), Err(e)) => {
            let head = concat("mkdir ", dir.as_str());
            let middle = concat(head.as_str(), ": ");
            return IntegrateOutcome::failed(path, concat(middle.as_str(), e.as_str()));
        },
        _ => {},
    }
    if let Err(e) = written {
        return IntegrateOutcome::failed(path, concat("write: ", e.as_str()));
    }
    IntegrateOutcome::of(path, FileStatus::Created)
}

// ---------------------------------------------------------------------------
// Paths
// ---------------------------------------------------------------------------

/// The name of the copy of a file: its own name, the time and an ending.
pub open spec fn backup_name(source: Seq<char>, timestamp: Seq<char>) -> Seq<char> {
    (match file_name_spec(source) {
        Some(name) => name,
        None => MCP_FILE_NAME@,
    }) + "."@ + timestamp + ".backup"@
}

/// The path of the copy of a file.
pub fn backup_path_for(source: &str, backup_dir: &str, timestamp: &str) -> (r: String)
    ensures
        r@ == join_path_spec(backup_dir@, backup_name(source@, timestamp@)),
{
    let name = match file_name(source) {
        Some(n) => n,
        None => MCP_FILE_NAME.to_owned(),
    };
    let a = concat(name.as_str(), ".");
    let b = concat(a.as_str(), timestamp);
    let c = concat(b.as_str(), ".backup");
    join_path(backup_dir, c.as_str())
}

/// The directory of copies below a home directory.
pub fn backup_dir(home: &str) -> (r: String)
    ensures
        r@ == join_path_spec(join_path_spec(home@, ".cursor"@), BACKUP_DIR_NAME@),
{
    let dot = join_path(home, ".cursor");
    join_path(dot.as_str(), BACKUP_DIR_NAME)
}

/// The server file below a home directory or a project.
pub fn mcp_path(base: &str) -> (r: String)
    ensures
        r@ == join_path_spec(join_path_spec(base@, ".cursor"@), MCP_FILE_NAME@),
{
    let dot = join_path(base, ".cursor");
    join_path(dot.as_str(), MCP_FILE_NAME)
}

/// The rules file of a project.
pub fn rules_path(project: &str) -> (r: String)
    ensures
        r@ == join_path_spec(project@, RULES_REL_PATH@),
{
    join_path(project, RULES_REL_PATH)
}

/// The path of a neighbour of a file: the same name with an ending added.
pub fn sibling_with_suffix(path: &str, suffix: &str) -> (r: Result<String, String>)
    ensures
        match file_name_spec(path@) {
            Some(name) => r matches Ok(s) && s@ == with_file_name_spec(
                path@,
                name + "."@ + suffix@,
            ),
            None => r matches Err(e) && e@ == "path has no file name: "@ + path@,
        },
{
    match file_name(path) {
        Some(name) => {
            let a = concat(name.as_str(), ".");
            let b = concat(a.as_str(), suffix);
            Ok(with_file_name(path, b.as_str()))
        },
        None => Err(concat("path has no file name: ", path)),
    }
}

// ---------------------------------------------------------------------------
// The whole command
// ---------------------------------------------------------------------------

/// Which files an integration touches.
#[derive(Debug, Clone, Copy, PartialEq, Eq, Structural)]
pub struct IntegratePlan {
    pub global_config: bool,
    pub project_config: bool,
    pub rules: bool,
}

/// Which files an integration touches: the server files of the home directory
/// and of the project, and the project's rules, less those that the switches
/// leave out. The two switches that leave one server file out exclude each
/// other.
pub fn handle_integrate(
    target: IntegrateTarget,
    global_only: bool,
    project_only: bool,
    no_rules: bool,
) -> (r: Result<IntegratePlan, String>)
    ensures
        match r {
            Ok(plan) => !(global_only && project_only) && plan == (IntegratePlan {
                global_config: !project_only,
                project_config: !global_only,
                rules: !global_only && !no_rules,
            }),
            Err(e) => global_only && project_only && e@
                == "--global-only and --project-only are mutually exclusive"@,
        },
{
    match target {
        IntegrateTarget::Cursor => {},
    }
    if global_only && project_only {
        return Err("--global-only and --project-only are mutually exclusive".to_owned());
    }
    Ok(
        IntegratePlan {
            global_config: !project_only,
            project_config: !global_only,
            rules: !global_only && !no_rules,
        },
    )
}

/// Whether one of the files failed.
pub open spec fn any_failed(outcomes: Seq<IntegrateOutcome>) -> bool {
    exists|i: int| 0 <= i < outcomes.len() && (#[trigger] outcomes[i]).status is Failed
}

/// The result of the command: an error where a file failed, unless nothing was
/// to be written anyway.
pub fn integrate_result(outcomes: &Vec<IntegrateOutcome>, dry_run: bool) -> (r: Result<(), String>)
    ensures
        match r {
            Ok(_) => dry_run || !any_failed(outcomes@),
            Err(e) => !dry_run && any_failed(outcomes@) && e@
                == "one or more files could not be written"@,
        },
{
    if dry_run {
        return Ok(());
    }
    for i in 0..outcomes.len()
        invariant
            !dry_run,
            forall|j: int| 0 <= j < i ==> !((#[trigger] outcomes@[j]).status is Failed),
    {
        match &outcomes[i].status {
            FileStatus::Failed(_) => {
                assert(outcomes@[i as int].status is Failed);
                return Err("one or more files could not be written".to_owned());
            },
            _ => {},
        }
    }
    Ok(())
}

/// One line of the report: a sign, the file, what became of it and, where one
/// was made, its copy.
pub struct SummaryLine {
    pub sign: char,
    pub path: String,
    pub note: String,
    pub backup: Option<String>,
}

/// The sign and the note of a status.
pub open spec fn summary_of(s: StatusView) -> (char, Seq<char>, Option<Seq<char>>) {
    match s {
        StatusView::Created => ('✓', "created"@, None),
        StatusView::Updated(backup) => ('✓', "updated"@, Some(backup)),
        StatusView::Skipped => ('↻', "already configured (skipped)"@, None),
        StatusView::Planned => ('·', "would write"@, None),
        StatusView::Failed(message) => ('✗', "failed: "@ + message, None),
    }
}

/// The line of the report for one outcome.
pub fn summary_line(o: &IntegrateOutcome) -> (l: SummaryLine)
    ensures
        l.path@ == o.path@,
        (l.sign, l.note@, crate::text::opt_text(l.backup)) == summary_of(o.status@),
{
    let path = o.path.clone();
    match &o.status {
        FileStatus::Created => SummaryLine {
            sign: '✓',
            path,
            note: "created".to_owned(),
            backup: None,
        },
        FileStatus::Updated(b) => SummaryLine {
            sign: '✓',
            path,
            note: "updated".to_owned(),
            backup: Some(b.clone()),
        },
        FileStatus::Skipped => SummaryLine {
            sign: '↻',
            path,
            note: "already configured (skipped)".to_owned(),
            backup: None,
        },
        FileStatus::Planned => SummaryLine {
            sign: '·',
            path,
            note: "would write".to_owned(),
            backup: None,
        },
        FileStatus::Failed(message) => SummaryLine {
            sign: '✗',
            path,
            note: concat("failed: ", message.as_str()),
            backup: None,
        },
    }
}

// ---------------------------------------------------------------------------
// Laws
// ---------------------------------------------------------------------------

/// A document that was given the entry is current: setting it again changes
/// nothing.
pub proof fn entry_is_set_once(doc: Map<Seq<char>, JsonTree>)
    ensures
        is_current(with_entry(doc)),
{
}

/// Setting the entry leaves every other member of the document, and every other
/// server, as it was.
pub proof fn other_members_are_kept(doc: Map<Seq<char>, JsonTree>, key: Seq<char>, server: Seq<char>)
    requires
        key != "mcpServers"@,
        server != TRUSTY_KEY@,
    ensures
        with_entry(doc).contains_key(key) == doc.contains_key(key),
        doc.contains_key(key) ==> with_entry(doc)[key] == doc[key],
        servers_of(with_entry(doc)).contains_key(server) == servers_of(doc).contains_key(server),
        servers_of(doc).contains_key(server) ==> servers_of(with_entry(doc))[server] == servers_of(
            doc,
        )[server],
{
}

proof fn lemma_read_back_is_current(text: Seq<char>, doc: Map<Seq<char>, JsonTree>)
    requires
        reads_back(text, JsonTree::Object(with_entry(doc))),
    ensures
        decide_mcp(Some(Ok(text)), false) is Skipped,
        decide_mcp(Some(Ok(text)), true) is Skipped,
{
    let tree = parsed_json(text)->Ok_0;
    let want = with_entry(doc);
    let n = MAX_NESTING as nat;
    assert(alike(tree, JsonTree::Object(want), n));
    let got = tree->Object_0;
    assert(got.dom() == want.dom());
    assert(want.contains_key("mcpServers"@));
    assert(got.contains_key("mcpServers"@));
    let wanted_servers = servers_of(doc).insert(TRUSTY_KEY@, entry_tree());
    assert(alike(got["mcpServers"@], JsonTree::Object(wanted_servers), (n - 1) as nat));
    let servers = got["mcpServers"@]->Object_0;
    assert(servers.dom() == wanted_servers.dom());
    assert(wanted_servers.contains_key(TRUSTY_KEY@));
    assert(servers.contains_key(TRUSTY_KEY@));
    assert(alike(servers[TRUSTY_KEY@], entry_tree(), (n - 2) as nat));
    let entry = servers[TRUSTY_KEY@]->Object_0;
    let wanted = entry_tree()->Object_0;
    assert(entry.dom() == wanted.dom());
    assert forall|k: Seq<char>| #[trigger] wanted.contains_key(k) implies entry[k] == wanted[k] by {
        assert(entry.contains_key(k));
        assert(alike(entry[k], wanted[k], (n - 3) as nat));
        if wanted[k] is Array {
            let a = entry[k]->Array_0;
            let b = wanted[k]->Array_0;
            assert(a.len() == 1 && b.len() == 1);
            assert(alike(a[0], b[0], (n - 4) as nat));
            assert(a =~= b);
        }
    }
    assert(entry =~= wanted);
    assert(servers[TRUSTY_KEY@] == entry_tree());
    assert(servers_of(got) == servers);
}

/// None of the keys that are written is the one that `serde_json` keeps for
/// itself.
proof fn lemma_own_keys()
    ensures
        "mcpServers"@ != RAW_VALUE_KEY@,
        TRUSTY_KEY@ != RAW_VALUE_KEY@,
        "command"@ != RAW_VALUE_KEY@,
        "args"@ != RAW_VALUE_KEY@,
        "description"@ != RAW_VALUE_KEY@,
{
    reveal_strlit("mcpServers");
    reveal_strlit("trusty-search");
    reveal_strlit("command");
    reveal_strlit("args");
    reveal_strlit("description");
    reveal_strlit("$serde_json::private::RawValue");
    assert(RAW_VALUE_KEY@.len() == 30);
    assert("mcpServers"@.len() == 10);
    assert(TRUSTY_KEY@.len() == 13);
    assert("command"@.len() == 7);
    assert("args"@.len() == 4);
    assert("description"@.len() == 11);
}

/// Where the members did not begin with the key that `serde_json` keeps for
/// itself, they do not begin with it once another key is set.
proof fn lemma_new_key_keeps_the_first(
    members: Map<Seq<char>, JsonTree>,
    key: Seq<char>,
    v: JsonTree,
)
    requires
        !begins_with_raw_key(members),
        key != RAW_VALUE_KEY@,
    ensures
        !begins_with_raw_key(members.insert(key, v)),
{
    let after = members.insert(key, v);
    if members.contains_key(RAW_VALUE_KEY@) {
        let k = choose|k: Seq<char>| #[trigger]
            members.contains_key(k) && !lex_le(text_key(RAW_VALUE_KEY@), text_key(k));
        assert(after.contains_key(k));
    }
}

proof fn lemma_readable_member(members: Map<Seq<char>, JsonTree>, n: nat, k: Seq<char>)
    requires
        readable(JsonTree::Object(members), n),
        members.contains_key(k),
    ensures
        n > 0,
        readable(members[k], (n - 1) as nat),
{
    let v = JsonTree::Object(members);
    assert(readable(v, n));
    match v {
        JsonTree::Object(m) => {
            assert(m == members);
            assert(readable(m[k], (n - 1) as nat));
        },
        _ => {},
    }
}

proof fn lemma_entry_is_readable(doc: Map<Seq<char>, JsonTree>)
    requires
        readable(JsonTree::Object(doc), MAX_NESTING as nat),
    ensures
        readable(JsonTree::Object(with_entry(doc)), MAX_NESTING as nat),
{
    let n = MAX_NESTING as nat;
    let entry = entry_tree()->Object_0;
    lemma_own_keys();
    assert(readable(JsonTree::Text("serve"@), (n - 4) as nat));
    assert forall|k: Seq<char>| entry.contains_key(k) implies readable(
        #[trigger] entry[k],
        (n - 3) as nat,
    ) by {
        if entry[k] is Array {
            let items = entry[k]->Array_0;
            assert forall|i: int| 0 <= i < items.len() implies readable(
                #[trigger] items[i],
                (n - 4) as nat,
            ) by {
                assert(items[i] is Text);
            }
        }
    }
    assert(readable(entry_tree(), (n - 2) as nat));
    let servers = servers_of(doc);
    assert forall|k: Seq<char>| servers.contains_key(k) implies readable(
        #[trigger] servers[k],
        (n - 2) as nat,
    ) by {
        lemma_readable_member(doc, n, "mcpServers"@);
        lemma_readable_member(servers, (n - 1) as nat, k);
    }
    assert(!begins_with_raw_key(servers)) by {
        if servers.contains_key(RAW_VALUE_KEY@) {
            lemma_readable_member(doc, n, "mcpServers"@);
        }
    }
    lemma_new_key_keeps_the_first(servers, TRUSTY_KEY@, entry_tree());
    let after = servers.insert(TRUSTY_KEY@, entry_tree());
    assert forall|k: Seq<char>| after.contains_key(k) implies readable(
        #[trigger] after[k],
        (n - 2) as nat,
    ) by {
        if k != TRUSTY_KEY@ {
            assert(after[k] == servers[k]);
        }
    }
    assert(readable(JsonTree::Object(after), (n - 1) as nat));
    lemma_new_key_keeps_the_first(doc, "mcpServers"@, JsonTree::Object(after));
    let all = with_entry(doc);
    assert forall|k: Seq<char>| all.contains_key(k) implies readable(#[trigger] all[k], (n - 1) as nat) by {
        if k != "mcpServers"@ {
            lemma_readable_member(doc, n, k);
        }
    }
}

/// A dry run never writes the server file, whatever it holds.
pub proof fn dry_run_writes_nothing(existing: Option<Result<Seq<char>, Seq<char>>>)
    ensures
        !(decide_mcp(existing, true) is Write),
{
}

} // verus!
