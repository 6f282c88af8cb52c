use serde_json::Value;
use trusty_search::engine::chunk::{
    raw_to_code_chunk, ChunkType, CodeChunk, RawChunk, SearchQuery,
};
use trusty_search::engine::indexer::CodeIndexer;
use trusty_search::engine::indexing::ParsedFile;
use trusty_search::engine::intent::QueryIntent;
use trusty_search::engine::registry::{IndexHandle, IndexId, IndexRegistry};
use trusty_search::service::events::{event_json, event_line, ReindexEvent};
use trusty_search::service::file_selection::{select_files, walk_roots, WalkedFile};
use trusty_search::service::global_search::{
    default_global_top_k, fusion_depth, gather, per_index_query, GlobalSearchRequest,
};
use trusty_search::service::hash_cache::{hash_content, HashCache};
use trusty_search::service::memory::MemoryWatch;
use trusty_search::service::reindex::{
    chunks_per_sec, BatchOutcome, FileRead, ReindexProgress, ReindexRun, ReindexStatus,
};
use trusty_search::service::server::{
    chunk_page, collect_status_counts, create_index, default_chunks_limit, default_similar_top_k,
    delete_index, find_index, health, index_file_answer, index_status, prepare_reindex,
    reindex_answer, remove_file_answer, similarity_seed, ChatChoice, ChunksParams,
    CreateIndexRequest, HandlerError, LocalModelConfig, ReindexRequest, SearchAppState,
    SearchSimilarRequest,
};
use trusty_search::service::sse::{
    connected_frame, error_frame, frame, lag_frame, stream_start,
};

fn raw(id: &str, file: &str, content: &str) -> RawChunk {
    RawChunk {
        id: id.to_string(),
        file: file.to_string(),
        start_line: 1,
        end_line: 1,
        content: content.to_string(),
        function_name: None,
        language: None,
        chunk_type: ChunkType::Code,
        calls: Vec::new(),
        inherits_from: Vec::new(),
        chunk_depth: 0,
        parent_chunk_id: None,
        child_chunk_ids: Vec::new(),
        nlp_keywords: Vec::new(),
        nlp_code_refs: Vec::new(),
        virtual_terms: Vec::new(),
    }
}

fn bare(name: &str, root: &str) -> IndexHandle {
    IndexHandle::bare(IndexId::new(name), root.to_string())
}

fn walked(paths: &[&str]) -> Vec<WalkedFile> {
    paths.iter().map(|p| WalkedFile { path: p.to_string(), excluded: false }).collect()
}

/// The files of a tree that lie below the directories to walk.
fn walk(tree: &[&str], handle: &IndexHandle) -> Vec<WalkedFile> {
    let roots = walk_roots(handle);
    let below = |path: &str| roots.iter().any(|root| path.starts_with(&format!("{root}/")));
    walked(&tree.iter().copied().filter(|path| below(path)).collect::<Vec<&str>>())
}

/// Searches by the texts that hold the word.
fn search(idx: &CodeIndexer, word: &str) -> Vec<CodeChunk> {
    let mut hits: Vec<(String, u32)> = Vec::new();
    for i in 0..idx.document_count() {
        let (id, text) = idx.document_at(i);
        if text.contains(word) {
            hits.push((id.clone(), (1.0f32).to_bits()));
        }
    }
    let q = SearchQuery {
        text: word.to_string(),
        top_k: 5,
        expand_graph: false,
        compact: false,
    };
    idx.finish_search(&q, QueryIntent::Unknown, hits.clone(), &Vec::new(), &hits, 0, &Vec::new())
}

/// Runs a whole reindex over files held in memory.
fn reindex(
    handle: &IndexHandle,
    force: bool,
    files: Vec<String>,
    contents: &[(&str, &str)],
    hashes: &mut HashCache,
) -> (ReindexProgress, Vec<ReindexEvent>) {
    let mut progress = ReindexProgress::new();
    let mut memory = MemoryWatch::new(None, None);
    let mut events = Vec::new();
    let (mut run, first) = ReindexRun::start(handle, force, files, hashes, &mut progress);
    progress.push(first.clone());
    events.push(first);
    while let Some(batch) = run.next_batch(&mut memory) {
        let reads: Vec<FileRead> = batch
            .iter()
            .map(|p| FileRead {
                path: p.clone(),
                content: contents
                    .iter()
                    .find(|(name, _)| name == p)
                    .map(|(_, c)| c.to_string())
                    .ok_or("missing".to_string()),
                minified: p.ends_with(".min.js"),
            })
            .collect();
        let (pending, reports) = run.classify(&reads, hashes, &mut progress);
        for report in reports {
            progress.push(report.clone());
            events.push(report);
        }
        if pending.is_empty() {
            continue;
        }
        let outcome = BatchOutcome {
            parse_ms: 1,
            embed_ms: 2,
            vector_count: 0,
            chunks: pending.len(),
            bm25_ms: 3,
            vector_upsert_ms: 0,
        };
        let report = run.record_batch(Ok(outcome), 10, None, &mut memory, hashes, &mut progress);
        progress.push(report.clone());
        events.push(report);
    }
    let last = run.finish(5, 4, 7, 20, None, &mut memory, &mut progress);
    progress.push(last.clone());
    events.push(last);
    (progress, events)
}

#[test]
fn reindex_honours_include_paths_filter() {
    let mut handle = bare("filter-test", "/r");
    handle.include_paths = vec!["/r/api".to_string()];
    assert_eq!(walk_roots(&handle), vec!["/r/api"]);
    let contents = [("/r/api/keep.rs", "fn keep_me() {}\n"), ("/r/ui/drop.rs", "fn drop_me() {}\n")];
    let tree: Vec<&str> = contents.iter().map(|(path, _)| *path).collect();
    let files = select_files(&walk(&tree, &handle), &handle);
    let mut hashes = HashCache::new();
    let (progress, _) = reindex(&handle, false, files.clone(), &contents, &mut hashes);
    assert_eq!(progress.status, ReindexStatus::Complete);
    assert_eq!(progress.total_files, 1, "only api/keep.rs should be walked");
    let mut idx = CodeIndexer::new("filter-test", "/r");
    for path in &files {
        let content = contents.iter().find(|(name, _)| name == path).unwrap().1;
        let chunk = raw(&format!("{path}:1:1"), path, content);
        let file = ParsedFile { path: path.clone(), chunks: vec![chunk], entities: Vec::new() };
        assert_eq!(idx.index_files_batch(vec![file], vec![None]), (1, 0));
    }
    let r = search(&idx, "keep_me");
    assert!(r.iter().any(|c| c.content.contains("keep_me")));
    let r2 = search(&idx, "drop_me");
    assert!(
        !r2.iter().any(|c| c.content.contains("drop_me")),
        "ui/drop.rs must not have been indexed"
    );
}

#[test]
fn reindex_walks_directory_and_emits_events() {
    let handle = bare("test", "/r");
    assert_eq!(walk_roots(&handle), vec!["/r"]);
    let files = select_files(&walk(&["/r/b.py", "/r/a.rs"], &handle), &handle);
    let contents = [("/r/a.rs", "fn a() {}"), ("/r/b.py", "def b():\n    pass\n")];
    let mut hashes = HashCache::new();
    let (progress, _) = reindex(&handle, false, files, &contents, &mut hashes);
    assert_eq!(progress.status, ReindexStatus::Complete);
    assert_eq!(progress.total_files, 2);
    assert_eq!(progress.indexed, 2);
    let events: Vec<String> = progress.events.iter().map(event_line).collect();
    assert!(events.first().map(|s| s.contains("\"start\"")).unwrap_or(false));
    assert!(events.last().map(|s| s.contains("\"complete\"")).unwrap_or(false));
}

#[test]
fn unchanged_files_are_skipped_unless_forced() {
    let handle = bare("t", "/r");
    let files = vec!["/r/a.rs".to_string(), "/r/b.min.js".to_string(), "/r/gone.rs".to_string()];
    let contents = [("/r/a.rs", "fn a() {}"), ("/r/b.min.js", "x")];
    let mut hashes = HashCache::new();
    let (p, _) = reindex(&handle, false, files.clone(), &contents, &mut hashes);
    assert_eq!((p.indexed, p.skipped, p.errors), (2, 1, 1));
    assert_eq!(p.total_chunks, 1);
    let (p, events) = reindex(&handle, false, files.clone(), &contents, &mut hashes);
    assert_eq!((p.indexed, p.skipped, p.errors, p.total_chunks), (2, 2, 1, 0));
    assert!(events.iter().any(|e| {
        let v = event_json(e);
        v["event"] == "skip" && v["file"] == "a.rs"
    }));
    let (p, _) = reindex(&handle, true, files, &contents, &mut hashes);
    assert_eq!((p.skipped, p.total_chunks), (1, 1));
}

#[test]
fn a_failed_batch_is_reported() {
    let handle = bare("t", "/r");
    let mut hashes = HashCache::new();
    let mut progress = ReindexProgress::new();
    let mut memory = MemoryWatch::new(None, None);
    let (mut run, _) =
        ReindexRun::start(&handle, false, vec!["/r/a".to_string()], &mut hashes, &mut progress);
    assert_eq!(run.next_batch(&mut memory), Some(vec!["/r/a".to_string()]));
    let reads = vec![FileRead {
        path: "/r/a".to_string(),
        content: Ok("x".to_string()),
        minified: false,
    }];
    let (pending, _) = run.classify(&reads, &hashes, &mut progress);
    assert_eq!(pending, vec![("/r/a".to_string(), "x".to_string())]);
    let e = run.record_batch(
        Err("embedder down".to_string()),
        5,
        None,
        &mut memory,
        &mut hashes,
        &mut progress,
    );
    let v: Value = event_json(&e);
    assert_eq!(v["event"], "error");
    assert_eq!(v["message"], "batch index: embedder down");
    assert!(!hashes.matches("/r/a", &hash_content("x")));
    assert_eq!(progress.errors, 1);
}

#[test]
fn the_memory_limit_stops_a_reindex() {
    let mut memory = MemoryWatch::new(Some(100), Some(50));
    memory.observe(Some(80));
    assert_eq!((memory.peak_rss_mb, memory.abort), (80, false));
    memory.poll(Some(100));
    assert!(memory.abort);
    let handle = bare("t", "/r");
    let mut hashes = HashCache::new();
    let mut progress = ReindexProgress::new();
    let (mut run, _) =
        ReindexRun::start(&handle, false, vec!["/r/a".to_string()], &mut hashes, &mut progress);
    assert_eq!(run.next_batch(&mut memory), None);
    let e = run.finish(0, 0, 0, 1, None, &mut memory, &mut progress);
    let v = event_json(&e);
    assert_eq!(v["memory_limit_hit"], true);
    assert_eq!(v["peak_rss_mb"], 100);
}

#[test]
fn the_replay_holds_the_latest_events() {
    let mut p = ReindexProgress::new();
    for i in 0..501usize {
        p.push(ReindexEvent::Skip {
            file: format!("f{i}"),
            minified: true,
            indexed: i,
            total_files: 501,
        });
    }
    assert_eq!(p.events.len(), 500);
    assert!(event_line(&p.events[0]).contains("\"f1\""));
    assert!(event_line(&p.events[499]).contains("\"f500\""));
    let (frames, live) = stream_start(&p);
    assert_eq!(frames.len(), 500);
    assert!(live);
    assert!(frames[0].starts_with("data: {") && frames[0].ends_with("}\n\n"));
}

#[test]
fn events_have_their_members() {
    let v = event_json(&ReindexEvent::Start {
        total_files: 3,
        index_id: "i".to_string(),
        root_path: "/r".to_string(),
        force: true,
    });
    assert_eq!(v["event"], "start");
    assert_eq!(v["total_files"], 3);
    let v = event_json(&ReindexEvent::BatchError {
        files: vec!["a".to_string(), "b".to_string()],
        message: "m".to_string(),
        indexed: 2,
        total_files: 2,
    });
    assert_eq!(v["event"], "error");
    assert_eq!(v["files"][1], "b");
    let v = event_json(&ReindexEvent::Batch {
        batch_files: 1,
        batch_chunks: 2,
        indexed: 3,
        total_files: 4,
        elapsed_ms: 5,
        chunks_per_sec: 6,
    });
    assert_eq!(v["event"], "batch");
    assert_eq!(v["batch_chunks"], 2);
    assert_eq!(v["chunks_per_sec"], 6);
}

#[test]
fn frames_and_rates() {
    assert_eq!(frame("x"), "data: x\n\n");
    assert_eq!(lag_frame(3), "data: {\"type\":\"lag\",\"skipped\":3}\n\n");
    assert_eq!(connected_frame(), "data: {\"type\":\"connected\"}\n\n");
    assert_eq!(error_frame("e"), "data: {\"type\":\"error\",\"message\":\"e\"}\n\n");
    assert_eq!(chunks_per_sec(10, 2_000), 5);
    assert_eq!(chunks_per_sec(10, 0), 0);
}

#[test]
fn fingerprints_are_sha256_in_hexadecimal() {
    assert_eq!(
        hash_content("abc"),
        "ba7816bf8f01cfea414140de5dae2223b00361a396177a9cb410ff61f20015ad"
    );
    assert_eq!(
        hash_content(""),
        "e3b0c44298fc1c149afbf4c8996fb92427ae41e4649b934ca495991b7852b855"
    );
}

#[test]
fn the_hash_cache_keeps_what_was_inserted_last() {
    let mut c = HashCache::new();
    assert_eq!(c.len(), 0);
    c.insert("a", "1".to_string());
    c.insert("a", "2".to_string());
    assert_eq!(c.len(), 1);
    assert!(c.matches("a", "2") && !c.matches("a", "1") && !c.matches("b", "2"));
    c.shrink_if_needed();
    assert_eq!(c.len(), 1);
    c.clear();
    assert_eq!(c.len(), 0);
    assert!(!c.matches("a", "2"));
}

#[test]
fn fingerprints_go_by_the_components_of_a_path() {
    let mut c = HashCache::new();
    c.insert("/r/./a//b/", "1".to_string());
    assert!(c.matches("/r/a/b", "1") && c.matches("/r/a/./b", "1"));
    assert!(!c.matches("r/a/b", "1") && !c.matches("/r/../a/b", "1"));
    c.insert("/r/a/b", "2".to_string());
    assert_eq!(c.len(), 1);
    assert!(c.matches("/r/./a//b/", "2"));
    c.insert("./a", "3".to_string());
    assert!(!c.matches("a", "3") && c.matches("././a", "3"));
}

#[test]
fn a_run_over_another_text_of_the_root_skips_what_is_known() {
    let contents =
        [("/r/a.rs", "fn a() {}"), ("/r/./a.rs", "fn a() {}"), ("/r//b.rs", "b"), ("/r/b.rs", "b")];
    let mut hashes = HashCache::new();
    let files = vec!["/r/a.rs".to_string(), "/r/b.rs".to_string()];
    let (p, _) = reindex(&bare("t", "/r"), false, files, &contents, &mut hashes);
    assert_eq!((p.indexed, p.skipped, p.total_chunks), (2, 0, 2));
    let files = vec!["/r/./a.rs".to_string(), "/r//b.rs".to_string()];
    let (p, _) = reindex(&bare("t", "/r/."), false, files, &contents, &mut hashes);
    assert_eq!((p.indexed, p.skipped, p.total_chunks), (2, 2, 0));
    assert_eq!(hashes.len(), 2);
}

#[test]
fn a_restored_cache_knows_the_same() {
    let mut c = HashCache::new();
    assert!(c.entries().is_empty());
    c.insert("/r/./a", "1".to_string());
    c.insert("b", "2".to_string());
    let mut entries = c.entries();
    entries.sort();
    assert_eq!(
        entries,
        vec![("/r/a".to_string(), "1".to_string()), ("b".to_string(), "2".to_string())]
    );
    entries.push(("/r/a/".to_string(), "3".to_string()));
    let restored = HashCache::restore(&entries);
    assert_eq!(restored.len(), 2);
    assert!(restored.matches("/r/a", "3") && restored.matches("b", "2"));
    assert!(!restored.matches("/r/a", "1"));
}

#[test]
fn unchanged_files_are_skipped_across_restarts() {
    let handle = bare("t", "/r");
    let files = vec!["/r/a.rs".to_string(), "/r/b.rs".to_string()];
    let contents = [("/r/a.rs", "fn a() {}"), ("/r/b.rs", "fn b() {}")];
    let mut hashes = HashCache::new();
    reindex(&handle, false, files.clone(), &contents, &mut hashes);
    let mut later = HashCache::restore(&hashes.entries());
    let changed = [("/r/a.rs", "fn a() {}"), ("/r/b.rs", "fn c() {}")];
    let (p, events) = reindex(&handle, false, files, &changed, &mut later);
    assert_eq!((p.indexed, p.skipped, p.total_chunks), (2, 1, 1));
    assert!(events.iter().any(|e| {
        let v = event_json(e);
        v["event"] == "skip" && v["file"] == "a.rs"
    }));
}

#[test]
fn a_hash_cache_over_its_bound_is_cut_back() {
    let mut c = HashCache::new();
    for i in 0..200_001usize {
        c.insert(&format!("{i}"), String::new());
    }
    c.shrink_if_needed();
    assert_eq!(c.len(), 180_000);
}

#[test]
fn files_are_sorted_filtered_and_listed_once() {
    let mut handle = bare("t", "/r");
    handle.extensions = vec!["rs".to_string()];
    handle.exclude_globs = vec!["x.*".to_string()];
    let mut list = walked(&["/r/b.rs", "/r/a.rs", "/r/a.rs", "/r/c.py", "/r/a/z.rs"]);
    list.push(WalkedFile { path: "/r/x.rs".to_string(), excluded: true });
    assert_eq!(select_files(&list, &handle), vec!["/r/a/z.rs", "/r/a.rs", "/r/b.rs"]);
}

// --- the registry and the handlers -----------------------------------------

#[test]
fn health_handler_reports_indexes_and_uptime() {
    let mut registry = IndexRegistry::new();
    registry.register(bare("health-test", "/tmp/health-test"));
    let resp = health(&registry, "0.1.0", 5);
    assert_eq!(resp.status, "ok");
    assert_eq!(resp.version, "0.1.0");
    assert_eq!(resp.indexes, 1);
    assert_eq!(resp.uptime_secs, 5);
}

#[test]
fn the_registry_finds_what_was_registered() {
    let mut r = IndexRegistry::new();
    assert!(r.is_empty());
    r.register(bare("a", "/1"));
    r.register(bare("a", "/2"));
    r.register(bare("b", "/3"));
    assert_eq!(r.len(), 2);
    assert_eq!(r.get(&IndexId::new("a")).unwrap().root_path, "/2");
    assert!(r.get(&IndexId::new("c")).is_none());
    let mut ids: Vec<String> = r.list().iter().map(|i| i.as_str().to_string()).collect();
    ids.sort();
    assert_eq!(ids, vec!["a", "b"]);
    assert!(r.unregister(&IndexId::new("a")));
    assert!(!r.unregister(&IndexId::new("a")));
    assert!(r.get(&IndexId::new("a")).is_none());
    assert_eq!(IndexId::new("b").same(), IndexId::new("b"));
}

#[test]
fn indexes_are_created_once_and_deleted() {
    let mut r = IndexRegistry::new();
    let req = CreateIndexRequest { id: "a".to_string(), root_path: "/r".to_string() };
    let (made, answer) = create_index(&mut r, &req);
    assert!(made);
    assert_eq!(answer["created"], true);
    let (made, answer) = create_index(&mut r, &req);
    assert!(!made);
    assert_eq!(answer["created"], false);
    assert_eq!(find_index(&r, "a").unwrap().root_path, "/r");
    assert_eq!(find_index(&r, "z").err(), Some(HandlerError::NotFound));
    let status = index_status(&r, "a", 7).unwrap();
    assert_eq!(status["chunk_count"], 7);
    assert_eq!(status["root_path"], "/r");
    assert_eq!(index_status(&r, "z", 0).err(), Some(HandlerError::NotFound));
    let (gone, answer) = delete_index(&mut r, "a");
    assert!(gone);
    assert_eq!(answer["id"], "a");
    assert!(!delete_index(&mut r, "a").0);
    assert_eq!(index_file_answer("a", "f")["path"], "f");
    assert_eq!(remove_file_answer("a", "f", 3)["removed_chunks"], 3);
    assert_eq!(reindex_answer("a")["stream_url"], "/indexes/a/reindex/stream");
}

#[test]
fn a_reindex_can_move_the_root() {
    let mut r = IndexRegistry::new();
    r.register(bare("a", "/old"));
    let body = ReindexRequest { root_path: Some("/new".to_string()), force: Some(true) };
    let (handle, force) = prepare_reindex(&mut r, "a", Some(body)).unwrap();
    assert!(force);
    assert_eq!(handle.root_path, "/new");
    let (handle, force) = prepare_reindex(&mut r, "a", None).unwrap();
    assert!(!force);
    assert_eq!(handle.root_path, "/new");
    assert_eq!(prepare_reindex(&mut r, "z", None).err(), Some(HandlerError::NotFound));
}

#[test]
fn a_similarity_search_needs_a_known_chunk() {
    let mut idx = CodeIndexer::new("t", "/t").with_components();
    assert!(idx.add_chunk(raw("src/a.rs:1:1", "src/a.rs", "x"), Some(vec![7])));
    let req = SearchSimilarRequest {
        file: "a.rs".to_string(),
        function: None,
        top_k: default_similar_top_k(),
    };
    assert_eq!(similarity_seed(&idx, &req), Ok(("src/a.rs:1:1".to_string(), vec![7])));
    let req = SearchSimilarRequest { file: "b.rs".to_string(), function: None, top_k: 5 };
    assert_eq!(similarity_seed(&idx, &req).err(), Some(HandlerError::NotFound));
}

#[test]
fn pages_of_chunks_are_bounded() {
    let mut idx = CodeIndexer::new("t", "/t");
    assert!(idx.add_chunk(raw("a:1:1", "a", "x"), None));
    assert!(idx.add_chunk(raw("b:1:1", "b", "x"), None));
    let p = chunk_page(&idx, &ChunksParams { offset: 1, limit: default_chunks_limit() });
    assert_eq!((p.total, p.offset), (2, 1));
    assert_eq!(p.chunks.len(), 1);
    assert_eq!(p.chunks[0].id, "b:1:1");
    let p = chunk_page(&idx, &ChunksParams { offset: 0, limit: 5_000 });
    assert_eq!(p.limit, 1_000);
    assert_eq!(collect_status_counts(&vec![Some(2), None, Some(3)]), (3, 5));
}

#[test]
fn who_answers_a_chat() {
    let local = |enabled: bool| LocalModelConfig {
        enabled,
        base_url: "http://l".to_string(),
        model: "m".to_string(),
    };
    let s = SearchAppState::new(
        IndexRegistry::new(),
        String::new(),
        local(false),
        "default".to_string(),
    )
    .with_daemon_port(7878);
    assert_eq!(s.openrouter_model, "default");
    assert_eq!(s.daemon_port, Some(7878));
    assert!(matches!(s.chat_provider(true), ChatChoice::Nobody));
    let s = s.with_local_model(local(true)).with_openrouter_model("gpt".to_string());
    assert!(matches!(s.chat_provider(true), ChatChoice::Local { model, .. } if model == "m"));
    let s = s.with_openrouter_api_key("k".to_string());
    assert!(s.openrouter_enabled);
    assert!(matches!(s.chat_provider(false), ChatChoice::OpenRouter { model, .. } if model == "gpt"));
}

// --- searching everywhere --------------------------------------------------

fn result(id: &str, file: &str) -> CodeChunk {
    raw_to_code_chunk(&raw(id, file, "fn alpha() {}"), (1.0f32).to_bits(), "bm25", None)
}

#[test]
fn global_search_fans_out_and_merges() {
    let req = GlobalSearchRequest { query: "alpha".to_string(), top_k: 10, full_content: false };
    let q = per_index_query(&req);
    assert_eq!(q.text, "alpha");
    assert!(q.compact);
    let mut registry = IndexRegistry::new();
    let mut per_index = Vec::new();
    for name in ["proj-a", "proj-b"] {
        registry.register(bare(name, &format!("/tmp/{name}")));
        per_index.push((name.to_string(), vec![result("lib.rs:1:1", &format!("{name}/lib.rs"))]));
    }
    let gathered = gather(per_index);
    assert_eq!(gathered.lanes.len(), 2);
    let fused: Vec<(String, u32)> = gathered
        .lanes
        .iter()
        .flat_map(|lane| lane.iter().map(|(id, _)| (id.clone(), (0.5f32).to_bits())))
        .collect();
    let answer = gathered.into_answer(&registry.list(), &fused, 10);
    assert_eq!(answer.total_indexes, 2, "both indexes counted");
    let searched = answer.indexes_searched;
    assert_eq!(searched.len(), 2);
    assert!(searched.contains(&"proj-a".to_string()));
    assert!(searched.contains(&"proj-b".to_string()));
    let results = answer.results;
    assert!(!results.is_empty(), "expected at least one hit");
    let mut from_a = false;
    let mut from_b = false;
    for r in &results {
        let idx = r.index_id.as_deref().expect("each result must be tagged with index_id");
        assert!(idx == "proj-a" || idx == "proj-b", "unexpected index_id: {idx}");
        from_a |= idx == "proj-a";
        from_b |= idx == "proj-b";
        assert_eq!(r.score, (0.5f32).to_bits());
    }
    assert!(from_a, "expected a result tagged with proj-a");
    assert!(from_b, "expected a result tagged with proj-b");
}

#[test]
fn global_search_empty_registry_returns_empty_results() {
    let registry = IndexRegistry::new();
    let answer = gather(Vec::new()).into_answer(&registry.list(), &Vec::new(), 5);
    assert_eq!(answer.total_indexes, 0);
    assert!(answer.results.is_empty());
    assert!(answer.indexes_searched.is_empty());
}

#[test]
fn global_search_takes_no_more_than_asked_for() {
    let gathered = gather(vec![("a".to_string(), vec![result("1", "f"), result("2", "f")])]);
    let fused: Vec<(String, u32)> =
        gathered.lanes[0].iter().map(|(id, s)| (id.clone(), *s)).collect();
    assert_eq!(gathered.into_results(&fused, 1).len(), 1);
    assert_eq!(default_global_top_k(), 10);
    assert!(fusion_depth(10) >= 10);
}
