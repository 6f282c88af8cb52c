use serde_json::Value;
use trusty_search::commands::integrate::{
    backup_dir, backup_path_for, finish_mcp_upsert, finish_rules_file, handle_integrate,
    integrate_result, mcp_path, rules_path, sibling_with_suffix, summary_line, upsert_mcp_config,
    upsert_trusty_entry, write_rules_file, FileStatus, IntegrateOutcome, IntegrateTarget, McpStep,
    RulesStep, BACKUP_DIR_NAME, RULES_MDC_CONTENT, TRUSTY_DESCRIPTION,
};

/// Runs an upsert against the content of a file, as a file system would: what
/// is written, and the outcome.
fn upsert(content: &mut Option<String>, dry_run: bool) -> IntegrateOutcome {
    let path = "/p/.cursor/mcp.json";
    match upsert_mcp_config(path, content.clone().map(Ok), dry_run) {
        McpStep::Done(o) => o,
        McpStep::Write { backup, rendered } => {
            let saved = backup.map(|_| {
                Ok(backup_path_for(path, backup_dir("/p").as_str(), "20260519_143005"))
            });
            *content = Some(rendered.expect("rendered"));
            finish_mcp_upsert(path, saved, Ok(()), Ok(()))
        }
    }
}

fn rules(content: &mut Option<String>, dry_run: bool, force: bool) -> IntegrateOutcome {
    let path = "/p/.cursor/rules/trusty-search.mdc";
    match write_rules_file(path, content.is_some(), dry_run, force) {
        RulesStep::Done(o) => o,
        RulesStep::Write(text) => {
            *content = Some(text);
            finish_rules_file(path, Some("/p/.cursor/rules".to_string()), Ok(()), Ok(()))
        }
    }
}

#[test]
fn test_upsert_creates_file() {
    let mut file: Option<String> = None;
    let outcome = upsert(&mut file, false);
    assert_eq!(outcome.status, FileStatus::Created);
    assert!(file.is_some(), "mcp.json should have been created");

    let written: Value = serde_json::from_str(&file.unwrap()).unwrap();
    let entry = &written["mcpServers"]["trusty-search"];
    assert_eq!(entry["command"], "trusty-search");
    assert_eq!(entry["args"][0], "serve");
    assert_eq!(entry["description"], TRUSTY_DESCRIPTION);
}

#[test]
fn test_upsert_preserves_other_keys() {
    let input =
        "{\"someTopLevel\": 42, \"mcpServers\": {\"other-server\": {\"command\": \"other\", \"args\": []}}}";
    let mut file = Some(input.to_string());
    let outcome = upsert(&mut file, false);
    assert!(matches!(outcome.status, FileStatus::Updated(_)));

    let written: Value = serde_json::from_str(&file.unwrap()).unwrap();
    let servers = written["mcpServers"].as_object().unwrap();
    assert!(servers.contains_key("other-server"), "unrelated server dropped");
    assert!(servers.contains_key("trusty-search"), "trusty key missing");
    assert_eq!(written["someTopLevel"], 42, "unrelated top-level key dropped");
    assert_eq!(servers["other-server"]["command"], "other");

    if let FileStatus::Updated(backup) = outcome.status {
        assert!(
            backup.starts_with(&format!("/p/.cursor/{BACKUP_DIR_NAME}")),
            "backup not in backup dir: {}",
            backup
        );
    }
}

#[test]
fn test_upsert_idempotent() {
    let mut file: Option<String> = None;
    let first = upsert(&mut file, false);
    assert_eq!(first.status, FileStatus::Created);

    let before = file.clone();
    let second = upsert(&mut file, false);
    assert_eq!(second.status, FileStatus::Skipped);
    assert_eq!(
        file, before,
        "idempotent run must leave the file byte-for-byte unchanged"
    );
}

#[test]
fn test_upsert_dry_run_writes_nothing() {
    let mut file: Option<String> = None;
    let outcome = upsert(&mut file, true);
    assert_eq!(outcome.status, FileStatus::Planned);
    assert!(file.is_none(), "dry run must not create the file");
}

#[test]
fn test_upsert_replaces_stale_entry() {
    let input =
        "{\"mcpServers\": {\"trusty-search\": {\"command\": \"old-binary\", \"args\": []}}}";
    let mut file = Some(input.to_string());
    let outcome = upsert(&mut file, false);
    assert!(
        matches!(outcome.status, FileStatus::Updated(_)),
        "stale entry should be rewritten"
    );
    let written: Value = serde_json::from_str(&file.unwrap()).unwrap();
    assert_eq!(written["mcpServers"]["trusty-search"]["command"], "trusty-search");
}

#[test]
fn test_write_rules_creates_file() {
    let mut file: Option<String> = None;
    let outcome = rules(&mut file, false, false);
    assert_eq!(outcome.status, FileStatus::Created);
    assert!(file.is_some(), "rules file should have been created");

    let content = file.unwrap();
    assert_eq!(content, RULES_MDC_CONTENT);
    assert!(content.starts_with("---\n"), "missing MDC front-matter");
    assert!(content.contains("alwaysApply: true"), "missing alwaysApply");
    assert!(content.contains("search_code"), "missing tool reference");
}

#[test]
fn test_write_rules_idempotent() {
    let mut file = Some("USER EDITED".to_string());
    let outcome = rules(&mut file, false, false);
    assert_eq!(outcome.status, FileStatus::Skipped);
    assert_eq!(
        file.unwrap(),
        "USER EDITED",
        "non-force run must not overwrite an existing rules file"
    );
}

#[test]
fn test_write_rules_force_overwrites() {
    let mut file = Some("USER EDITED".to_string());
    let outcome = rules(&mut file, false, true);
    assert_eq!(outcome.status, FileStatus::Created);
    assert_eq!(file.unwrap(), RULES_MDC_CONTENT);
}

#[test]
fn test_write_rules_dry_run_writes_nothing() {
    let mut file: Option<String> = None;
    let outcome = rules(&mut file, true, false);
    assert_eq!(outcome.status, FileStatus::Planned);
    assert!(file.is_none(), "dry run must not create the rules file");
}

#[test]
fn test_backup_path_generation() {
    let source = "/home/u/.cursor/mcp.json";
    let backup_dir = "/home/u/.cursor/.mcp-installer-backups";
    let path = backup_path_for(source, backup_dir, "20260519_143005");
    assert_eq!(
        path,
        format!("{backup_dir}/mcp.json.20260519_143005.backup"),
        "backup path shape mismatch"
    );
}

#[test]
fn test_upsert_entry_returns_change_flag() {
    let mut doc: serde_json::Map<String, Value> = serde_json::Map::new();
    assert!(
        upsert_trusty_entry(&mut doc),
        "first upsert must change the doc"
    );
    assert!(
        !upsert_trusty_entry(&mut doc),
        "second upsert on an identical doc must report no change"
    );
}

fn failure(step: McpStep) -> String {
    match step {
        McpStep::Done(IntegrateOutcome { status: FileStatus::Failed(m), .. }) => m,
        _ => panic!("a failure was expected"),
    }
}

#[test]
fn unreadable_and_malformed_files_are_reported() {
    let path = "/p/.cursor/mcp.json";
    let m = failure(upsert_mcp_config(path, Some(Err("denied".to_string())), false));
    assert!(m.contains("denied"), "{m}");
    let m = failure(upsert_mcp_config(path, Some(Ok("{".to_string())), false));
    assert!(m.contains("EOF while parsing"), "{m}");
    let m = failure(upsert_mcp_config(path, Some(Ok("[1]".to_string())), false));
    assert!(m.contains("object"), "{m}");
}

#[test]
fn failures_while_writing_are_reported() {
    let path = "/p/.cursor/mcp.json";
    let o = finish_mcp_upsert(path, None, Ok(()), Err("disk full".to_string()));
    assert!(matches!(&o.status, FileStatus::Failed(m) if m.contains("disk full")));
    let o = finish_mcp_upsert(path, Some(Err("no copy".to_string())), Ok(()), Ok(()));
    assert!(matches!(&o.status, FileStatus::Failed(m) if m.contains("no copy")));
    let o = finish_rules_file(path, Some("/p".to_string()), Err("no dir".to_string()), Ok(()));
    assert!(matches!(&o.status, FileStatus::Failed(m) if m.contains("no dir")));
    let o = finish_rules_file(path, None, Ok(()), Err("disk full".to_string()));
    assert!(matches!(&o.status, FileStatus::Failed(m) if m.contains("disk full")));
}

#[test]
fn the_text_is_printed_indented_and_closed_by_a_line_break() {
    let mut file: Option<String> = None;
    upsert(&mut file, false);
    let text = file.unwrap();
    assert!(text.starts_with("{\n  \"mcpServers\": {\n    \"trusty-search\": {"), "{text}");
    assert!(text.ends_with("}\n"), "{text}");
}

#[test]
fn plans_follow_the_switches() {
    let plan = handle_integrate(IntegrateTarget::Cursor, false, false, false).unwrap();
    assert!(plan.global_config && plan.project_config && plan.rules);
    let plan = handle_integrate(IntegrateTarget::Cursor, true, false, false).unwrap();
    assert!(plan.global_config && !plan.project_config);
    let plan = handle_integrate(IntegrateTarget::Cursor, false, true, true).unwrap();
    assert!(!plan.global_config && plan.project_config && !plan.rules);
    assert!(handle_integrate(IntegrateTarget::Cursor, true, true, false).is_err());
}

#[test]
fn one_failed_file_fails_the_command() {
    let good = IntegrateOutcome { path: "/a".to_string(), status: FileStatus::Skipped };
    let bad = IntegrateOutcome::failed("/b", "broken".to_string());
    assert!(integrate_result(&vec![], false).is_ok());
    let line = summary_line(&bad);
    assert_eq!((line.sign, line.note.as_str()), ('✗', "failed: broken"));
    let line = summary_line(&good);
    assert_eq!((line.sign, line.note.as_str()), ('↻', "already configured (skipped)"));
    assert!(integrate_result(&vec![good, bad], false).is_err());
}

#[test]
fn places_of_the_files() {
    assert_eq!(mcp_path("/home/u"), "/home/u/.cursor/mcp.json");
    assert_eq!(rules_path("/w/p"), "/w/p/.cursor/rules/trusty-search.mdc");
    assert_eq!(sibling_with_suffix("/a/b.json", "tmp").unwrap(), "/a/b.json.tmp");
    assert!(sibling_with_suffix("/", "tmp").is_err());
}

#[test]
fn a_file_with_the_reserved_key_is_left_alone_where_another_key_comes_first() {
    let mut content = Some(
        "{\"\": 1, \"$serde_json::private::RawValue\": \"x\", \"mcpServers\": {\"#\": 2, \
         \"$serde_json::private::RawValue\": \"[]\"}}"
            .to_string(),
    );
    assert!(matches!(upsert(&mut content, false).status, FileStatus::Updated(_)));
    let written = content.clone();
    let doc: Value = serde_json::from_str(written.as_ref().unwrap()).unwrap();
    assert_eq!(doc["$serde_json::private::RawValue"], "x");
    assert_eq!(doc["mcpServers"]["$serde_json::private::RawValue"], "[]");
    assert!(matches!(upsert(&mut content, true).status, FileStatus::Skipped));
    assert!(matches!(upsert(&mut content, false).status, FileStatus::Skipped));
    assert_eq!(content, written);
}
