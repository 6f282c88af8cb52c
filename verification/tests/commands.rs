use trusty_search::commands::add::{add_tally, adding, handle_add, index_single_file, unreadable};
use trusty_search::commands::convert::{
    after_create, after_reindex, convert_intro, convert_permits, convert_start, convert_summary, convert_table,
    convert_tally, convert_urls, find_all_mvs_configs, find_mvs_config, hyphenated,
    mvs_candidates, no_config, parse_mvs_config, single_outcome, skips_directory, unusable, ConfigRead, ConvertResult,
    ConvertStatus,
};
use trusty_search::commands::daemon_guard::{ensure_daemon_running, GuardStep};
use trusty_search::commands::daemon_utils::{
    daemon_base_url, daemon_lock_path, daemon_port_path, host_port, http_addr_path, index_file_body,
    index_header, pid_from, read_daemon_port, read_http_addr_file, registration_body, reindex_body,
    resolve_index, Reply,
};
use trusty_search::commands::dashboard::{handle_dashboard, DashboardError};
use trusty_search::commands::doctor::{
    cache_places, check_daemon_running, check_data_dir, check_lock_file, check_model_cache,
    check_port_reachable, doctor_data_dir, fastembed_cache_dir, fix_stale_lock, lock_removed,
    model_dir, run_doctor_checks, summarize_indexes, CheckResult, DoctorProbes, LockFix, LockProbe,
};
use trusty_search::commands::format::{
    fmt_bytes, fmt_elapsed, fmt_secs, format_with_commas, pad_left, pad_right,
};
use trusty_search::commands::index::{
    already_indexed, handle_index, index_one, needs_reindex, register_index_with_daemon,
};
use trusty_search::commands::reindex::handle_reindex;
use trusty_search::commands::reindex_client::{
    chunk_count_in, conclude, deadline_passed, index_url, kickoff, kickoff_body, kickoff_failure, probe_body, probes, probes_answered, reindex_result, results_in, stream_url,
    timing_breakdown, verify_reindex_health, ClientAction, Conclusion, Kickoff, ReindexOptions, Score,
};
use trusty_search::commands::serve::{address_file, handle_serve, serve_banner, ServePlan};
use trusty_search::commands::service::{
    handle_service, launchd_env_vars_plist, launchd_plist_body, no_logs, not_loaded, uninstalled,
    xml_escape, ServiceAction, ServicePlan,
};
use trusty_search::commands::start::{
    daemon_ended, fmt_gigabytes, handle_start, reap_is_over, restore_indexes, stragglers,
    DaemonEnd, IndexEntry, StartStep,
};
use trusty_search::commands::status::{
    fetch_index_names, handle_status, IndexStatus, StatusReport,
};
use trusty_search::commands::stop::{handle_stop, StopOutcome, StopStep, StopWait};
use trusty_search::commands::ui::{handle_ui, open_by_hand, opening};
use trusty_search::engine::registry::{IndexHandle, IndexId, IndexRegistry};
use trusty_search::service::events::{event_line, ReindexEvent, ReindexTimings, ReindexTotals};

fn answered(success: bool, body: &str) -> Reply {
    Reply::Answered {
        status: if success { "200 OK" } else { "500 Internal Server Error" }.to_string(),
        success,
        body: body.to_string(),
    }
}

fn down() -> Reply {
    Reply::Unreachable("connection refused".to_string())
}

fn status(name: &str, body: &str) -> IndexStatus {
    IndexStatus { name: name.to_string(), body: Some(body.to_string()) }
}

// --- format ----------------------------------------------------------------

#[test]
fn digits_are_grouped_in_threes() {
    assert_eq!(format_with_commas(0), "0");
    assert_eq!(format_with_commas(999), "999");
    assert_eq!(format_with_commas(1000), "1,000");
    assert_eq!(format_with_commas(115585), "115,585");
    assert_eq!(format_with_commas(u64::MAX), "18,446,744,073,709,551,615");
    for n in [1u64, 12345, 100_000, 1_000_000] {
        assert_eq!(format_with_commas(n).replace(',', ""), n.to_string());
    }
}

#[test]
fn durations_are_short() {
    assert_eq!(fmt_secs(5), "5s");
    assert_eq!(fmt_secs(65), "1m 05s");
    assert_eq!(fmt_elapsed(250), "0s");
    assert_eq!(fmt_elapsed(999), "0s");
    assert_eq!(fmt_elapsed(1_000), "1s");
    assert_eq!(fmt_elapsed(61_000), "1m 01s");
}

#[test]
fn sizes_are_rounded_as_doubles_are() {
    for n in [0u64, 999, 1_000, 1_499, 1_500, 2_500, 3_500, 999_499, 999_500, 999_999, 1_000_000,
        1_500_000, 2_500_000, 86_400_123, u64::MAX, u64::MAX - 1_499_999, 9_007_199_254_740_993] {
        let want = if n >= 1_000_000 {
            format!("{:.0}MB", n as f64 / 1_000_000.0)
        } else if n >= 1_000 {
            format!("{:.0}KB", n as f64 / 1_000.0)
        } else {
            format!("{n}B")
        };
        assert_eq!(fmt_bytes(n), want);
    }
    assert_eq!(fmt_bytes(2_500), "2KB");
    assert_eq!(fmt_bytes(3_500), "4KB");
}

#[test]
fn padding_counts_characters() {
    assert_eq!(pad_left("é", 3), "  é");
    assert_eq!(pad_right("é", 3), "é  ");
    assert_eq!(pad_left("long", 2), "long");
    assert_eq!(pad_right("long", 2), "long");
}

// --- where the daemon is ---------------------------------------------------

#[test]
fn the_address_goes_before_the_port() {
    assert_eq!(daemon_base_url(Some(" 10.0.0.1:99\n"), Some("1234")), "http://10.0.0.1:99");
    assert_eq!(daemon_base_url(Some(" \n"), Some("1234\n")), "http://127.0.0.1:1234");
    assert_eq!(daemon_base_url(None, Some("99999")), "http://127.0.0.1:7878");
    assert_eq!(daemon_base_url(None, None), "http://127.0.0.1:7878");
    assert_eq!(read_http_addr_file(Some("")), None);
    assert_eq!(read_http_addr_file(Some("a:1 ")).as_deref(), Some("a:1"));
    assert_eq!(read_daemon_port(Some("65535")), 65535);
    assert_eq!(read_daemon_port(Some("65536")), 7878);
    assert_eq!(pid_from(Some("4294967295 ")), Some(u32::MAX));
    assert_eq!(pid_from(Some("4294967296")), None);
    assert_eq!(http_addr_path(Some("/home/u")).unwrap(), "/home/u/.trusty-search/http_addr");
    assert_eq!(daemon_port_path(Some("/d")).unwrap(), "/d/trusty-search/daemon.port");
    assert_eq!(daemon_lock_path(Some("/d")).unwrap(), "/d/trusty-search/daemon.lock");
    assert_eq!(http_addr_path(None), None);
    assert_eq!(host_port("127.0.0.1", 80), "127.0.0.1:80");
}

#[test]
fn an_explicit_index_is_no_guess() {
    assert_eq!(resolve_index(Some("foo"), "bar", true), ("foo".to_string(), false));
    assert_eq!(resolve_index(None, "trusty-search", false), ("trusty-search".to_string(), false));
    assert_eq!(index_header("x", false), None);
    assert!(index_header("x", true).unwrap().contains("'x'"));
    let (id, warning) = handle_add(None, "dir", true);
    assert_eq!(id, "dir");
    assert!(warning.is_some());
    let t = handle_reindex(Some("i"), None, "dir", "/root", true);
    assert_eq!((t.index_id.as_str(), t.path.as_str(), t.warning), ("i", "/root", None));
    assert_eq!(handle_reindex(None, Some("/p"), "d", "/root", false).path, "/p");
}

#[test]
fn requests_are_json() {
    assert_eq!(registration_body("a", "/r"), "{\"id\":\"a\",\"root_path\":\"/r\"}");
    assert_eq!(index_file_body("f\"", "x\n"), "{\"content\":\"x\\n\",\"path\":\"f\\\"\"}");
    assert_eq!(reindex_body("/r"), "{\"root_path\":\"/r\"}");
    assert_eq!(index_url("http://h", "i", "status"), "http://h/indexes/i/status");
}

#[test]
fn the_dashboard_needs_an_address() {
    assert_eq!(handle_dashboard(Some("/h"), Some("1.2.3.4:5\n")).ok().unwrap(), "http://1.2.3.4:5/ui");
    assert!(matches!(handle_dashboard(None, None), Err(DashboardError::NoHome(_))));
    match handle_dashboard(Some("/h"), None) {
        Err(DashboardError::NotRunning(s)) => assert_eq!(
            s,
            "No daemon running (/h/.trusty-search/http_addr not found). Start one with trusty-search start."
        ),
        _ => panic!("not running was expected"),
    }
    assert!(matches!(handle_dashboard(Some("/h"), Some(" ")), Err(DashboardError::Empty(_))));
}

#[test]
fn the_web_interface_is_opened_where_the_daemon_is() {
    let t = handle_ui(Some(80), Some("81"));
    assert_eq!(t.url, "http://127.0.0.1:80/ui");
    assert_eq!(handle_ui(None, Some("81")).probe_url, "http://127.0.0.1:81/health");
    assert_eq!(handle_ui(None, None).base, "http://127.0.0.1:7878");
    assert_eq!(opening(&t, true), Ok("Opening http://127.0.0.1:80/ui …".to_string()));
    assert!(opening(&t, false).unwrap_err().contains("Run trusty-search start first."));
    assert!(open_by_hand("u", "e").contains("(e)"));
}

#[test]
fn tools_are_served_over_http_unless_switched_off() {
    assert!(matches!(handle_serve(true, 1, Some("a"), "d"), ServePlan::Stdio(_)));
    assert!(matches!(handle_serve(false, 1, Some("a:2"), "d"), ServePlan::Http(s) if s == "a:2"));
    assert!(matches!(handle_serve(false, 0, None, "d"), ServePlan::Http(s) if s == "127.0.0.1:0"));
    assert_eq!(address_file("a:1"), "a:1\n");
    assert!(serve_banner("1", "a:1", "d").0.ends_with("http://a:1"));
}

#[test]
fn stopping_waits_for_the_port_file() {
    assert!(matches!(handle_stop(None), StopStep::NotRunning(_)));
    assert!(matches!(handle_stop(Some("abc")), StopStep::NotRunning(_)));
    assert!(matches!(handle_stop(Some("42\n")), StopStep::Signal { pid: 42, .. }));
    assert!(StopWait::after_signal(false).is_err());
    let mut w = StopWait::after_signal(true).ok().unwrap();
    for _ in 0..49 {
        assert!(matches!(w.poll(Some(true)), StopOutcome::Waiting));
    }
    assert!(matches!(w.poll(Some(true)), StopOutcome::StillThere(_)));
    let mut w = StopWait::after_signal(true).ok().unwrap();
    assert!(matches!(w.poll(None), StopOutcome::Stopped(_)));
}

#[test]
fn the_guard_starts_a_daemon_once_and_waits_ten_seconds() {
    assert!(matches!(ensure_daemon_running("b", true, None), GuardStep::Ready));
    assert!(matches!(ensure_daemon_running("b", false, None), GuardStep::Start(_)));
    assert!(matches!(ensure_daemon_running("b", false, Some(9_999)), GuardStep::Wait));
    match ensure_daemon_running("http://b", false, Some(10_000)) {
        GuardStep::GiveUp(s) => {
            assert!(s.starts_with("daemon did not become ready within 10s at http://b"))
        }
        _ => panic!("giving up was expected"),
    }
}

// --- adding and indexing ---------------------------------------------------

#[test]
fn single_files_are_counted() {
    assert_eq!(add_tally(&vec![true, false, true]), "indexed 2 files (1 errors)");
    assert_eq!(adding("i", 3, "/p"), "[i] indexing 3 files under /p");
    assert_eq!(unreadable("/f", "denied"), "read /f: denied");
    assert!(index_single_file("u", &answered(true, "")).is_ok());
    assert_eq!(
        index_single_file("u", &answered(false, "")),
        Err("daemon returned 500 Internal Server Error for u".to_string())
    );
    assert_eq!(index_single_file("u", &down()), Err("connection refused".to_string()));
}

#[test]
fn declared_indexes_go_before_a_name() {
    let declared = Ok(Some(vec!["a".to_string(), "b".to_string()]));
    let plan = handle_index(Some("/w/p"), "/cwd", Some("n"), declared).ok().unwrap();
    assert_eq!(plan.names, vec!["a", "b"]);
    assert_eq!(plan.notice.unwrap(), "loaded trusty-search.yaml (2 indexes declared)");
    assert!(plan.ignored.is_some());
    let plan = handle_index(None, "/cwd/proj", None, Ok(None)).ok().unwrap();
    assert_eq!((plan.path.as_str(), plan.names), ("/cwd/proj", vec!["proj".to_string()]));
    let plan = handle_index(Some("/"), "/cwd", None, Ok(None)).ok().unwrap();
    assert_eq!(plan.names, vec![""]);
    let plan = handle_index(Some("/"), "/cwd", Some("n"), Ok(None)).ok().unwrap();
    assert_eq!(plan.names, vec!["n"]);
    assert_eq!(
        handle_index(None, "/", None, Err("bad".to_string())).err().unwrap(),
        "could not parse trusty-search.yaml: bad"
    );
}

#[test]
fn registrations_are_told_apart() {
    assert_eq!(
        register_index_with_daemon(&answered(true, "{\"created\":true}")),
        Ok((true, true))
    );
    assert_eq!(register_index_with_daemon(&answered(true, "no json")), Ok((false, true)));
    assert_eq!(register_index_with_daemon(&down()), Ok((false, false)));
    assert!(register_index_with_daemon(&answered(false, "")).is_err());
    assert_eq!(index_one("i", "/p", "b", true, true), Ok(Some("'i' registered at /p".to_string())));
    assert_eq!(index_one("i", "/p", "b", false, true), Ok(None));
    assert!(index_one("i", "/p", "b", false, false).is_err());
}

#[test]
fn an_index_with_chunks_is_passed_over_unless_forced() {
    assert!(!needs_reindex(false, Some(3)));
    assert!(needs_reindex(true, Some(3)));
    assert!(needs_reindex(false, Some(0)));
    assert!(needs_reindex(false, None));
    assert_eq!(
        already_indexed("i", 1_234),
        "'i' is already indexed (1,234 chunks) — use --force to reindex"
    );
}

// --- following a reindex ---------------------------------------------------

fn totals() -> ReindexTotals {
    ReindexTotals {
        indexed: 5,
        total_chunks: 1234,
        skipped: 2,
        errors: 0,
        elapsed_ms: 1500,
        chunks_per_sec: 822,
        peak_rss_mb: 10,
        memory_limit_hit: false,
        kg_skipped: false,
        timings: ReindexTimings {
            parse_ms: 1,
            embed_ms: 2,
            bm25_ms: 3,
            vector_upsert_ms: 4,
            kg_ms: 5,
            vector_count: 6,
            symbol_count: 7,
            edge_count: 8,
        },
    }
}

#[test]
fn the_client_reads_what_the_daemon_reports() {
    let mut s = Score::new();
    let start = ReindexEvent::Start {
        total_files: 5,
        index_id: "i".to_string(),
        root_path: "/r".to_string(),
        force: false,
    };
    assert!(matches!(s.on_message(&event_line(&start)), ClientAction::Nothing));
    assert_eq!(s.total, 5);
    let batch = ReindexEvent::Batch {
        batch_files: 2,
        batch_chunks: 9,
        indexed: 2,
        total_files: 5,
        elapsed_ms: 1,
        chunks_per_sec: 1,
    };
    assert!(matches!(s.on_message(&event_line(&batch)), ClientAction::Show));
    assert_eq!((s.indexed, s.chunks), (2, 9));
    let skip = ReindexEvent::Skip {
        file: "f".to_string(),
        minified: true,
        indexed: 3,
        total_files: 5,
    };
    assert!(matches!(s.on_message(&event_line(&skip)), ClientAction::Show));
    assert_eq!(s.skipped, 1);
    let error = ReindexEvent::FileError {
        file: "f".to_string(),
        message: "m".to_string(),
        indexed: 3,
        total_files: 5,
    };
    assert!(matches!(s.on_message(&event_line(&error)), ClientAction::Warn(w) if w == "f: m"));
    assert!(matches!(s.on_message("not json"), ClientAction::Nothing));
    let complete = ReindexEvent::Complete { totals: totals() };
    assert!(matches!(s.on_message(&event_line(&complete)), ClientAction::Over));
    assert!(s.outcome.completed);
    assert_eq!((s.outcome.indexed, s.outcome.total_chunks, s.outcome.skipped), (5, 1234, 2));
    assert_eq!(s.outcome.timings.unwrap().edge_count, 8);
    match conclude(&s.outcome, None, 600, "i") {
        Conclusion::Finished { headline, stages } => {
            assert!(headline.contains("1,234 chunks"), "{headline}");
            assert_eq!(stages.len(), 4);
            assert!(stages[1].ends_with("(6 vectors)"), "{}", stages[1]);
        }
        _ => panic!("the end was expected"),
    }
    let mut timings = s.outcome.timings.unwrap();
    timings.vector_count = 0;
    let lines = timing_breakdown(&timings, 9);
    assert_eq!(lines.len(), 5);
    assert!(lines[1].ends_with("(0 vectors)"), "{}", lines[1]);
    assert!(lines[4].contains("SKIPPED"), "{}", lines[4]);
    assert_eq!(timing_breakdown(&timings, 0).len(), 4);
    let open = Score::new().outcome;
    let late = conclude(&open, Some(600_000), 600, "i");
    assert_eq!(reindex_result(&open, &late), Ok(open));
    assert!(matches!(late, Conclusion::TimedOut(t) if t.contains("600s")));
    assert!(matches!(conclude(&open, Some(599_999), 600, "i"), Conclusion::Incomplete(_)));
    assert!(matches!(conclude(&open, Some(600_000), 0, "i"), Conclusion::Incomplete(_)));
    let cut = conclude(&open, None, 1, "i");
    assert_eq!(reindex_result(&open, &cut), Err("reindex did not complete".to_string()));
    assert!(!deadline_passed(0, u64::MAX));
    assert!(deadline_passed(2, 2_000) && !deadline_passed(2, 1_999));
    assert!(!s.stats_line(3, true).is_empty());
}

#[test]
fn answers_of_the_daemon_are_read() {
    assert_eq!(kickoff(404), Kickoff::NotRegistered);
    assert_eq!(kickoff(202), Kickoff::Queued);
    assert_eq!(kickoff(500), Kickoff::Refused);
    assert_eq!(kickoff_failure(Kickoff::Queued, "i", "202 Accepted"), None);
    assert_eq!(
        kickoff_failure(Kickoff::Refused, "i", "500 X"),
        Some("daemon returned 500 X for reindex kickoff".to_string())
    );
    assert!(kickoff_failure(Kickoff::NotRegistered, "i", "").unwrap().contains("'i'"));
    assert_eq!(kickoff_body("/r", true), "{\"force\":true,\"root_path\":\"/r\"}");
    assert_eq!(probe_body("fn"), "{\"text\":\"fn\",\"top_k\":1}");
    assert_eq!(stream_url("b", "i", "{\"stream_url\":\"/s\"}"), "b/s");
    assert_eq!(stream_url("b", "i", "?"), "b/indexes/i/reindex/stream");
    assert_eq!(chunk_count_in("{\"chunk_count\":7}"), Some(7));
    assert_eq!(chunk_count_in("{\"chunk_count\":-7}"), None);
    assert!(results_in("{\"results\":[1]}") && !results_in("{\"results\":[]}"));
    assert_eq!(probes()[0], "fn");
    let hit = vec![None, Some("{\"results\":[1]}".to_string())];
    let miss = vec![None, Some("{\"results\":[]}".to_string())];
    assert_eq!(
        verify_reindex_health(1000, &hit, 0, Some(5)),
        Ok("Reindex complete: 1,000 chunks (was 5)".to_string())
    );
    assert!(verify_reindex_health(0, &hit, 0, None).is_err());
    assert!(verify_reindex_health(1, &miss, 0, None).unwrap_err().contains("returned 0 results"));
    assert!(verify_reindex_health(1, &hit, 1, None).is_err());
    assert!(probes_answered(&hit) && !probes_answered(&miss) && !probes_answered(&Vec::new()));
    assert_eq!(ReindexOptions::default().timeout_secs, 600);
    assert!(ReindexOptions::forced(None, 1).verify_after && !ReindexOptions::plain(1).force);
}

// --- converting ------------------------------------------------------------

#[test]
fn the_nearest_configuration_is_taken() {
    let all = mvs_candidates("/a/b");
    assert_eq!(
        all,
        vec![
            "/a/b/.mcp-vector-search/config.json",
            "/a/.mcp-vector-search/config.json",
            "/.mcp-vector-search/config.json"
        ]
    );
    assert_eq!(mvs_candidates("x").len(), 2);
    let existing = vec![all[2].clone(), all[1].clone()];
    assert_eq!(find_mvs_config("/a/b", &existing).as_deref(), Some(all[1].as_str()));
    assert_eq!(find_mvs_config("/a/b", &vec![]), None);
}

#[test]
fn configurations_are_recognised_in_their_place() {
    let walked: Vec<String> = [
        "/h/p/.mcp-vector-search/config.json",
        "/h/p/config.json",
        "/h/p/.mcp-vector-search/other.json",
    ]
    .iter()
    .map(|s| s.to_string())
    .collect();
    assert_eq!(find_all_mvs_configs(&walked), vec!["/h/p/.mcp-vector-search/config.json"]);
    assert!(skips_directory("node_modules") && skips_directory("__pycache__"));
    assert!(!skips_directory("src"));
}

#[test]
fn a_project_is_named_after_its_root() {
    let read = ConfigRead::Root("/Users/x/My Project".to_string());
    let (root, name) = parse_mvs_config("/c", &read).unwrap();
    assert_eq!((root.as_str(), name.as_str()), ("/Users/x/My Project", "my-project"));
    let (_, name) = parse_mvs_config("/c", &ConfigRead::Root("/".to_string())).unwrap();
    assert_eq!(name, "project");
    let (_, name) = parse_mvs_config("/c", &ConfigRead::Root("/É B".to_string())).unwrap();
    assert_eq!(name, "é-b");
    assert_eq!(hyphenated("a b c"), "a-b-c");
    assert_eq!(
        parse_mvs_config("/c", &ConfigRead::Unreadable("e".to_string())),
        Err("read /c: e".to_string())
    );
    assert_eq!(
        parse_mvs_config("/c", &ConfigRead::Malformed("e".to_string())),
        Err("parse /c: e".to_string())
    );
}

fn failure(s: ConvertStatus) -> String {
    match s {
        ConvertStatus::Failed(m) => m,
        _ => panic!("a failure was expected"),
    }
}

#[test]
fn a_conversion_goes_through_its_steps() {
    assert!(matches!(convert_start(true, Some("e")), Some(ConvertStatus::DryRun)));
    assert_eq!(
        failure(convert_start(false, Some("e")).unwrap()),
        "failed to build HTTP client: e"
    );
    assert!(convert_start(false, None).is_none());
    assert_eq!(after_create(&answered(true, "{\"created\":false}")).ok(), Some(true));
    assert_eq!(after_create(&answered(true, "{\"created\":true}")).ok(), Some(false));
    assert_eq!(after_create(&answered(true, "{}")).ok(), Some(false));
    assert_eq!(
        failure(after_create(&answered(false, "")).unwrap_err()),
        "create returned 500 Internal Server Error"
    );
    assert_eq!(failure(after_create(&down()).unwrap_err()), "create error: connection refused");
    assert!(matches!(after_reindex(true, &answered(true, "")), ConvertStatus::AlreadyRegistered));
    assert!(matches!(after_reindex(false, &answered(true, "")), ConvertStatus::Queued));
    assert_eq!(
        failure(after_reindex(false, &answered(false, ""))),
        "reindex returned 500 Internal Server Error"
    );
    assert_eq!(failure(after_reindex(false, &down())), "reindex error: connection refused");
    assert_eq!(convert_urls("b", "n").1, "b/indexes/n/reindex");
    assert!(single_outcome(&ConvertStatus::Queued).is_ok());
    assert_eq!(
        single_outcome(&ConvertStatus::Failed("x".to_string())),
        Err("Conversion failed: x".to_string())
    );
    assert_eq!((convert_permits(0), convert_permits(4)), (1, 4));
    let r = unusable("/c", "e");
    assert_eq!((r.name.as_str(), r.path.as_str(), failure(r.status)), ("/c", "/c", "parse: e".to_string()));
    assert_eq!(convert_intro(0, 4, true), "No mcp-vector-search projects found.");
    assert_eq!(convert_intro(2, 4, true), "Dry run — would convert 2 projects:");
    assert_eq!(convert_intro(2, 4, false), "Found 2 projects. Converting (max 4 concurrent)…");
    assert!(no_config("/w").contains("found in /w or any"));
}

#[test]
fn the_table_is_in_order_and_the_counts_add_up() {
    let one = |i: usize, status: ConvertStatus| {
        (i, ConvertResult { name: format!("p{i}"), path: format!("/p{i}"), status })
    };
    let results = vec![
        one(3, ConvertStatus::Failed("e".to_string())),
        one(1, ConvertStatus::Queued),
        one(2, ConvertStatus::AlreadyRegistered),
    ];
    let lines = convert_table(&results, 3);
    let prefixes: Vec<&str> = lines.iter().map(|l| l.prefix.as_str()).collect();
    assert_eq!(prefixes, vec!["[1/3]", "[2/3]", "[3/3]"]);
    assert_eq!(lines[0].name, format!("{:<24}", "p1"));
    assert_eq!(lines[1].note.as_deref(), Some("(already registered, reindexing)"));
    assert_eq!(lines[2].note.as_deref(), Some("(e)"));
    assert_eq!(lines[2].mark.as_deref(), Some("✗"));
    let t = convert_tally(&results);
    assert_eq!((t.queued, t.already, t.dry, t.failed), (1, 1, 0, 1));
    assert_eq!(
        convert_summary(&t, false),
        "Summary: 1 queued, 1 already registered (reindexing), 1 failed"
    );
    let t = convert_tally(&vec![one(1, ConvertStatus::DryRun)]);
    assert_eq!(convert_summary(&t, true), "Dry run complete: 1 projects");
}

// --- status and doctor -----------------------------------------------------

#[test]
fn indexes_are_shown_by_name() {
    let statuses = vec![
        status("zeta", "{\"chunk_count\":1234,\"root_path\":\"/z\"}"),
        status("alpha", "broken"),
    ];
    assert_eq!(
        fetch_index_names(Some("{\"indexes\":[\"a\",1,\"b\"]}")),
        vec!["a".to_string(), "b".to_string()]
    );
    assert!(fetch_index_names(None).is_empty());
    match handle_status(false, "b", Some("{\"version\":\"1.2\"}"), &statuses) {
        StatusReport::Table { headline, rows } => {
            assert_eq!(headline, "Daemon running  b  v1.2");
            assert_eq!(rows[0].name, format!("{:<16}", "alpha"));
            assert_eq!(rows[0].root, None);
            assert_eq!(rows[1].chunks, format!("{:>12}", "1,234"));
            assert_eq!(rows[1].root.as_deref(), Some("/z"));
        }
        _ => panic!("a table was expected"),
    }
    match handle_status(true, "b", Some("{\"version\":\"1.2\"}"), &statuses) {
        StatusReport::Json(s) => {
            let v: serde_json::Value = serde_json::from_str(&s).unwrap();
            assert_eq!(v["daemon"], "running");
            assert_eq!(v["version"], "1.2");
            assert_eq!(v["indexes"][0]["id"], "alpha");
            assert_eq!(v["indexes"][1]["status"]["chunk_count"], 1234);
        }
        _ => panic!("JSON was expected"),
    }
    match handle_status(true, "b", Some("{}"), &vec![]) {
        StatusReport::Json(s) => assert!(s.contains("\"version\":null"), "{s}"),
        _ => panic!("JSON was expected"),
    }
    assert!(matches!(handle_status(true, "b", None, &vec![]),
        StatusReport::NotRunning(s) if s == "{\"daemon\":\"not_running\"}"));
}

fn lock(there: bool, content: Option<&str>, alive: bool) -> LockProbe {
    LockProbe { there, content: content.map(|s| s.to_string()), alive }
}

#[test]
fn lock_files_are_judged() {
    let ok = |c: CheckResult| matches!(c, CheckResult::Passed(_));
    assert!(ok(check_lock_file("/d", &lock(false, None, false), false)));
    assert!(ok(check_lock_file("/d", &lock(true, Some("7"), true), true)));
    assert_eq!(
        check_lock_file("/d", &lock(true, Some("7"), false), true),
        CheckResult::Warn("Stale lock file: PID 7 is not running (/d/daemon.lock)".to_string())
    );
    assert!(check_lock_file("/d", &lock(true, Some("x"), true), true).is_warn());
    assert!(check_lock_file("/d", &lock(true, Some("7"), true), false).is_warn());
    assert_eq!(fix_stale_lock(&lock(false, None, false)), LockFix::Nothing);
    assert_eq!(fix_stale_lock(&lock(true, Some("7"), true)), LockFix::Keep);
    assert_eq!(fix_stale_lock(&lock(true, Some("7"), false)), LockFix::Remove);
    assert_eq!(fix_stale_lock(&lock(true, None, true)), LockFix::Remove);
    assert_eq!(lock_removed("/d", None), "Removed stale lock file /d/daemon.lock");
    assert_eq!(lock_removed("/d", Some("e")), "Could not remove lock file /d/daemon.lock: e");
}

#[test]
fn single_checks() {
    assert_eq!(
        check_daemon_running(true, "b", "1.2"),
        CheckResult::Passed("Daemon running at b (v1.2)".to_string())
    );
    assert!(check_daemon_running(false, "b", "").is_error());
    assert_eq!(
        check_model_cache("/c", true, true, 2_500),
        CheckResult::Passed("Model cache: /c (2KB, all-MiniLM-L6-v2)".to_string())
    );
    assert!(check_model_cache("/c", false, true, 0).is_warn());
    assert!(check_model_cache("/c", false, false, 0).is_warn());
    assert!(check_data_dir("/d", false, false).is_warn());
    assert!(check_data_dir("/d", true, false).is_error());
    assert!(!check_data_dir("/d", true, true).is_error());
    assert!(check_port_reachable(1, false).is_error());
    assert_eq!(
        summarize_indexes(2, 0),
        CheckResult::Passed("2 indexes registered, all have chunks".to_string())
    );
    assert_eq!(
        summarize_indexes(2, 1),
        CheckResult::Warn("2 indexes registered, 1 has no chunks yet:".to_string())
    );
    assert_eq!(
        summarize_indexes(1, 1),
        CheckResult::Warn("1 index registered, 1 has no chunks yet:".to_string())
    );
    assert_eq!(doctor_data_dir(Some("/d")), "/d/trusty-search");
    assert_eq!(model_dir("/c"), "/c/models--Qdrant--all-MiniLM-L6-v2-onnx");
}

#[test]
fn the_model_cache_is_looked_for_in_order() {
    let places = cache_places(Some("/d"), Some("/bin/trusty"));
    assert_eq!(places, vec!["/d/trusty-search/.fastembed_cache", "/bin/.fastembed_cache"]);
    let none: Vec<String> = Vec::new();
    assert_eq!(fastembed_cache_dir(Some("/x"), Some("/d"), None, &places), "/x");
    assert_eq!(fastembed_cache_dir(None, Some("/d"), Some("/bin/trusty"), &places), places[0]);
    let second = vec![places[1].clone()];
    assert_eq!(fastembed_cache_dir(None, Some("/d"), Some("/bin/trusty"), &second), places[1]);
    assert_eq!(fastembed_cache_dir(None, Some("/d"), Some("/bin/t"), &none), ".fastembed_cache");
}

fn doctor(health: Option<&str>, names: &[&str], statuses: Vec<IndexStatus>) -> DoctorProbes {
    DoctorProbes {
        base: "b".to_string(),
        health: health.map(|s| s.to_string()),
        port: 7878,
        port_reachable: health.is_some(),
        cache: "/c".to_string(),
        model_there: true,
        cache_there: true,
        cache_size: 1,
        data_dir: "/d".to_string(),
        data_dir_there: true,
        data_dir_writable: true,
        lock: lock(false, None, false),
        names: names.iter().map(|s| s.to_string()).collect(),
        statuses,
    }
}

#[test]
fn all_checks_are_made_in_order() {
    let p = doctor(
        Some("{\"version\":\"1\"}"),
        &["b", "a"],
        vec![status("b", "{\"chunk_count\":5}"), status("a", "{\"root_path\":\"/a\"}")],
    );
    let r = run_doctor_checks(&p);
    assert_eq!(r.checks.len(), 6);
    assert_eq!(r.checks[0], CheckResult::Passed("Daemon running at b (v1)".to_string()));
    assert!(r.checks[4].is_warn());
    assert_eq!(r.rows.len(), 2);
    assert!(!r.rows[0].filled && r.rows[1].filled);
    assert_eq!(r.empty_indexes.len(), 1);
    assert_eq!((r.empty_indexes[0].name.as_str(), r.empty_indexes[0].root_path.as_str()), ("a", "/a"));
    let r = run_doctor_checks(&doctor(None, &["a"], vec![]));
    assert_eq!(r.checks.iter().filter(|c| c.is_error()).count(), 2);
    assert_eq!(
        r.checks[4],
        CheckResult::Warn("Indexes: skipped (daemon not running)".to_string())
    );
    let r = run_doctor_checks(&doctor(Some("{}"), &[], vec![]));
    assert!(matches!(&r.checks[4], CheckResult::Warn(s) if s.starts_with("No indexes registered")));
}

// --- starting --------------------------------------------------------------

#[test]
fn small_machines_are_refused() {
    match handle_start(8_000, None, &vec![]) {
        StartStep::Refuse(s) => assert!(s.contains("Detected: 8000 MB (7.8 GB)"), "{s}"),
        _ => panic!("a refusal was expected"),
    }
    assert!(matches!(handle_start(16_384, Some(5), &vec![1]), StartStep::AlreadyRunning(_)));
    assert!(matches!(handle_start(16_384, None, &vec![1]), StartStep::Reap(_)));
    assert!(matches!(handle_start(16_384, None, &vec![]), StartStep::Run));
    for mb in [0u64, 1, 256, 768, 1_023, 1_024, 1_280, 7_999, 8_000, 16_383] {
        assert_eq!(fmt_gigabytes(mb), format!("{:.1}", mb as f64 / 1024.0));
    }
}

#[test]
fn stragglers_are_those_still_alive() {
    assert!(reap_is_over(false, 0) && reap_is_over(true, 3_000) && !reap_is_over(true, 2_999));
    assert_eq!(stragglers(&vec![1, 2, 3], &vec![true, false, true]), vec![1, 3]);
    assert_eq!(daemon_ended(&DaemonEnd::Stopped), Ok(None));
    assert!(daemon_ended(&DaemonEnd::AlreadyRunning("/l".to_string())).unwrap().is_some());
    assert_eq!(
        daemon_ended(&DaemonEnd::Failed("e".to_string())),
        Err("daemon failed: e".to_string())
    );
}

fn entry(id: &str, root: &str) -> IndexEntry {
    let list = |v: &[&str]| v.iter().map(|s| s.to_string()).collect::<Vec<_>>();
    IndexEntry {
        id: id.to_string(),
        root_path: root.to_string(),
        include_paths: list(&[" src ", ".", "", "/abs"]),
        exclude_globs: list(&["*.min.js"]),
        extensions: list(&[".rs", "py", "..", ""]),
        domain_terms: list(&["t"]),
    }
}

#[test]
fn recorded_indexes_are_restored_once() {
    let mut registry = IndexRegistry::new();
    registry.register(IndexHandle::bare(IndexId::new("live"), "/live".to_string()));
    let entries = vec![entry("live", "/other"), entry("a", "/a"), entry("a", "/later")];
    restore_indexes(&mut registry, &entries);
    assert_eq!(registry.len(), 2);
    assert_eq!(registry.get(&IndexId::new("live")).unwrap().root_path, "/live");
    let a = registry.get(&IndexId::new("a")).unwrap();
    assert_eq!(a.root_path, "/a");
    assert_eq!(a.include_paths, vec!["/a/src", "/abs"]);
    assert_eq!(a.extensions, vec!["rs", "py"]);
    assert_eq!(a.exclude_globs, vec!["*.min.js"]);
    assert_eq!(a.domain_terms, vec!["t"]);
    restore_indexes(&mut registry, &entries);
    assert_eq!(registry.len(), 2);
    assert_eq!(registry.get(&IndexId::new("a")).unwrap().root_path, "/a");
}

// --- the service -----------------------------------------------------------

#[test]
fn the_service_is_for_one_platform() {
    let none: Vec<(String, String)> = Vec::new();
    for a in [
        ServiceAction::Install,
        ServiceAction::Uninstall,
        ServiceAction::Status,
        ServiceAction::Logs,
    ] {
        let r = handle_service(a, false, Ok("/bin/t"), Some("/h"), 501, &none);
        assert!(r.err().unwrap().contains("not supported on this platform"));
    }
    let r = handle_service(ServiceAction::Install, true, Err("e"), None, 501, &none);
    assert_eq!(r.err().unwrap(), "could not resolve current exe: e");
    let r = handle_service(ServiceAction::Logs, true, Err("e"), None, 501, &none);
    assert_eq!(r.err().unwrap(), "could not resolve $HOME");
    match handle_service(ServiceAction::Status, true, Err("e"), None, 501, &none) {
        Ok(ServicePlan::Status { target }) => assert_eq!(target, "gui/501/com.trusty.trusty-search"),
        _ => panic!("a target was expected"),
    }
    match handle_service(ServiceAction::Uninstall, true, Err("e"), Some("/h"), 501, &none) {
        Ok(ServicePlan::Uninstall { plist_path, domain }) => {
            assert_eq!(plist_path, "/h/Library/LaunchAgents/com.trusty.trusty-search.plist");
            assert_eq!(domain, "gui/501");
        }
        _ => panic!("a path was expected"),
    }
}

#[test]
fn the_description_names_program_logs_and_variables() {
    let vars = vec![("TRUSTY_MAX_CHUNKS".to_string(), "<5 & 6>".to_string())];
    match handle_service(ServiceAction::Install, true, Ok("/bin/t"), Some("/h"), 1, &vars) {
        Ok(ServicePlan::Install { log_dir, body, .. }) => {
            assert_eq!(log_dir, "/h/Library/Logs/trusty-search");
            assert!(body.contains("<string>/bin/t</string>\n        <string>start</string>"));
            assert!(body.contains("<string>/h/Library/Logs/trusty-search/stdout.log</string>"));
            assert!(body.contains("<key>HF_HOME</key>\n        <string>/h/.cache/huggingface</string>"));
            assert!(body.contains("<string>&lt;5 &amp; 6&gt;</string>"));
            assert!(body.ends_with("</dict>\n</plist>\n"));
        }
        _ => panic!("a description was expected"),
    }
    assert_eq!(launchd_env_vars_plist(None, &vec![]), "");
    assert!(launchd_plist_body("e", "/l", "").contains("</array>\n    <key>RunAtLoad</key>"));
    assert_eq!(xml_escape("&lt;"), "&amp;lt;");
    assert_eq!(uninstalled("/p", false), "/p not installed — nothing to do");
    assert_eq!(uninstalled("/p", true), "Unloaded and removed /p");
    assert_eq!(not_loaded("t", " e\n"), "t is not loaded (e)");
    assert!(no_logs("/l", false, false).is_some() && no_logs("/l", true, false).is_none());
}
