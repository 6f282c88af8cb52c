use trusty_search::engine::caches::{EmbeddingCache, QueryCache};
use trusty_search::engine::chunk::{
    bm25_doc_text, build_compact_snippet, compute_match_reason, default_top_k, default_true,
    populate_virtual_terms, raw_to_code_chunk, ChunkType, EntityType, RawChunk, RawEntity,
    SearchQuery,
};
use trusty_search::engine::indexer::{
    accept_embeddings, embed_batches, embedding_cache_cap, max_chunks_per_index, CodeIndexer,
    ParsedBatch,
};
use trusty_search::engine::indexing::{enrich_with_nlp_entities, gather_files, ParsedFile};
use trusty_search::engine::intent::{edge_kinds_for_intent, EdgeKind, QueryIntent};
use trusty_search::engine::kg::{kg_expand, score_above};
use trusty_search::engine::listing::similar_want;
use trusty_search::engine::memguard::{current_rss_mb, memory_limit_mb, over_memory_limit};
use trusty_search::engine::search::{put_first, search_want};

fn raw(id: &str, file: &str, content: &str) -> RawChunk {
    RawChunk {
        id: id.to_string(),
        file: file.to_string(),
        start_line: 1,
        end_line: 1 + content.lines().count(),
        content: content.to_string(),
        function_name: None,
        language: Some("rust".to_string()),
        chunk_type: ChunkType::Code,
        calls: Vec::new(),
        inherits_from: Vec::new(),
        chunk_depth: 0,
        parent_chunk_id: None,
        child_chunk_ids: Vec::new(),
        nlp_keywords: Vec::new(),
        nlp_code_refs: Vec::new(),
        virtual_terms: Vec::new(),
    }
}

fn function(id: &str, file: &str, name: &str, content: &str, calls: &[&str]) -> RawChunk {
    let mut c = raw(id, file, content);
    c.function_name = Some(name.to_string());
    c.chunk_type = ChunkType::Function;
    c.calls = calls.iter().map(|s| s.to_string()).collect();
    c
}

fn named_type(text: &str, line: usize) -> RawEntity {
    RawEntity { text: text.to_string(), line, entity_type: EntityType::NamedType }
}

/// A vector that depends on the text, as bits.
fn vector(text: &str) -> Vec<u32> {
    let n = text.chars().map(|c| c as u32).sum::<u32>() as f32;
    vec![n.to_bits(), (1.0f32).to_bits()]
}

fn make_indexer() -> CodeIndexer {
    CodeIndexer::new("test", "/tmp/test").with_components()
}

fn add(idx: &mut CodeIndexer, c: RawChunk) {
    let v = if idx.has_components() { Some(vector(&c.content)) } else { None };
    assert!(idx.add_chunk(c, v));
}

/// A lexical lane: every document that holds a word of the query, scored by how
/// many it holds.
fn lexical(idx: &CodeIndexer, query: &str) -> Vec<(String, u32)> {
    let mut hits: Vec<(String, f32)> = Vec::new();
    for i in 0..idx.document_count() {
        let (id, text) = idx.document_at(i);
        let n = query.split_whitespace().filter(|w| text.contains(*w)).count();
        if n > 0 {
            hits.push((id.clone(), n as f32));
        }
    }
    hits.sort_by(|a, b| b.1.partial_cmp(&a.1).unwrap().then(a.0.cmp(&b.0)));
    hits.into_iter().map(|(id, s)| (id, s.to_bits())).collect()
}

/// A search over the lexical lane alone, with the callers of the hits as the
/// neighbours of the symbol graph.
fn search(idx: &CodeIndexer, q: &SearchQuery, intent: QueryIntent) -> Vec<trusty_search::engine::chunk::CodeChunk> {
    let mut hits = lexical(idx, &q.text);
    idx.inject_entity_exact_match(intent, &q.text, (100.0f32).to_bits(), &mut hits);
    let tuples = idx.symbol_tuples();
    let mut derived: Vec<(String, u32)> = Vec::new();
    for (id, score) in &hits {
        let name = tuples.iter().find(|t| &t.id == id).and_then(|t| t.function_name.clone());
        for t in &tuples {
            if let Some(n) = &name {
                if t.calls.contains(n) {
                    derived.push((t.id.clone(), (f32::from_bits(*score) * 0.7).to_bits()));
                }
            }
        }
    }
    idx.finish_search(q, intent, hits.clone(), &Vec::new(), &hits, tuples.len(), &derived)
}

#[test]
fn test_search_integration_returns_relevant_chunk_first() {
    let mut idx = make_indexer();
    add(
        &mut idx,
        raw(
            "src/auth.rs:1:5",
            "src/auth.rs",
            "fn authenticate(user: &str, password: &str) -> bool { true }",
        ),
    );
    add(
        &mut idx,
        raw("src/render.rs:1:3", "src/render.rs", "fn render_ui_components() { /* svelte */ }"),
    );
    add(&mut idx, raw("src/db.rs:1:4", "src/db.rs", "struct Database { conn: String }"));
    let q = SearchQuery {
        text: "fn authenticate".to_string(),
        top_k: 3,
        expand_graph: false,
        compact: true,
    };
    let results = search(&idx, &q, QueryIntent::Definition);
    assert!(!results.is_empty(), "search should return at least one hit");
    assert_eq!(
        results[0].id,
        "src/auth.rs:1:5",
        "auth chunk must rank first; got {:?}",
        results.iter().map(|r| &r.id).collect::<Vec<_>>()
    );
    assert!(
        results[0].compact_snippet.is_some(),
        "compact_snippet should be populated when compact=true"
    );
    assert!(
        results[0].match_reason == "hybrid" || results[0].match_reason == "bm25",
        "expected hybrid or bm25 match_reason, got {}",
        results[0].match_reason
    );
}

#[test]
fn test_query_cache_skips_embedder_on_repeat() {
    let mut idx = make_indexer();
    let q = "find user authentication logic";
    assert!(idx.cached_query(q).is_none());
    let v1 = vector(q);
    idx.remember_query(q, v1.clone());
    let cached = idx.cached_query(q);
    assert_eq!(cached.as_ref(), Some(&v1), "cache must be populated");
    let v2 = idx.cached_query(q).unwrap();
    assert_eq!(v1, v2, "second call must return identical vector via cache");
    assert!(idx.cached_query("another query").is_none());
}

#[test]
fn test_search_with_no_embedder_falls_back_to_bm25() {
    let mut idx = CodeIndexer::new("bm25-only", "/tmp/test");
    add(&mut idx, raw("f.rs:1:1", "f.rs", "fn authenticate() {}"));
    add(&mut idx, raw("g.rs:1:1", "g.rs", "fn unrelated() {}"));
    let q = SearchQuery {
        text: "authenticate".to_string(),
        top_k: 5,
        expand_graph: false,
        compact: false,
    };
    let r = search(&idx, &q, QueryIntent::Unknown);
    assert_eq!(r[0].id, "f.rs:1:1");
    assert_eq!(r[0].match_reason, "bm25");
}

#[test]
fn test_remove_chunk_removes_from_results() {
    let mut idx = make_indexer();
    add(&mut idx, raw("a:1:1", "a.rs", "fn authenticate() {}"));
    add(&mut idx, raw("b:1:1", "b.rs", "fn other_thing() {}"));
    idx.remove_chunk("a:1:1");
    let q = SearchQuery {
        text: "authenticate".to_string(),
        top_k: 5,
        expand_graph: false,
        compact: false,
    };
    let r = search(&idx, &q, QueryIntent::Unknown);
    assert!(!r.iter().any(|c| c.id == "a:1:1"));
    assert!(idx.get_embedding("a:1:1").is_none());
    assert!(idx.document("a:1:1").is_none());
}

#[test]
fn test_kg_expansion_marks_neighbours_with_hybrid_kg() {
    let mut idx = CodeIndexer::new("kg-test", "/tmp/test");
    add(
        &mut idx,
        function(
            "h:1",
            "h.rs",
            "login_handler",
            "fn login_handler() { /* dispatch to verifier */ }",
            &["authenticate"],
        ),
    );
    add(&mut idx, function("a:1", "a.rs", "authenticate", "fn authenticate() {}", &[]));
    let q = SearchQuery {
        text: "callers of authenticate".to_string(),
        top_k: 10,
        expand_graph: true,
        compact: false,
    };
    let results = search(&idx, &q, QueryIntent::Usage);
    let login = results
        .iter()
        .find(|c| c.id == "h:1")
        .expect("login_handler should surface via KG expansion");
    assert_eq!(
        login.match_reason, "hybrid+kg",
        "KG-expanded chunks must carry hybrid+kg marker, got {}",
        login.match_reason
    );
    let trigger = results
        .iter()
        .find(|c| c.id == "a:1")
        .expect("authenticate must appear directly");
    let expected = f32::from_bits(trigger.score) * 0.7;
    let got = f32::from_bits(login.score);
    assert!(
        (got - expected).abs() < 1e-5,
        "expected KG score = 0.7 * {} = {}, got {}",
        f32::from_bits(trigger.score),
        expected,
        got
    );
}

#[test]
fn test_kg_expansion_disabled_by_expand_graph_false() {
    let mut idx = make_indexer();
    add(&mut idx, function("h:1", "h.rs", "caller", "fn caller() { target(); }", &["target"]));
    add(&mut idx, function("t:1", "t.rs", "target", "fn target() {}", &[]));
    let q = SearchQuery {
        text: "callers of target".to_string(),
        top_k: 10,
        expand_graph: false,
        compact: false,
    };
    let results = search(&idx, &q, QueryIntent::Usage);
    assert!(
        !results.iter().any(|c| c.match_reason.contains("kg")),
        "expand_graph=false must suppress KG expansion, got {results:#?}"
    );
}

#[test]
fn test_symbol_graph_rebuilds_after_indexing() {
    let mut idx = make_indexer();
    assert_eq!(idx.symbol_tuples().len(), 0);
    let alpha = function("a.rs:1:1", "a.rs", "alpha", "fn alpha() { beta(); }", &["beta"]);
    let beta = function("a.rs:2:2", "a.rs", "beta", "fn beta() {}", &[]);
    let vectors = vec![Ok(vector(&alpha.content)), Ok(vector(&beta.content))];
    let file =
        ParsedFile { path: "a.rs".to_string(), chunks: vec![alpha, beta], entities: Vec::new() };
    idx.index_file(file, vectors, Vec::new(), Vec::new()).unwrap();
    let g = idx.symbol_tuples();
    assert!(g.len() >= 2, "graph should hold alpha + beta");
    let alpha = g.iter().find(|t| t.function_name.as_deref() == Some("alpha")).unwrap();
    assert_eq!(alpha.calls, vec!["beta"], "alpha should have a callee edge to beta");
}

fn index_one(idx: &mut CodeIndexer, path: &str, chunks: Vec<RawChunk>, entities: Vec<RawEntity>) {
    let vectors = chunks.iter().map(|c| Ok(vector(&c.content))).collect();
    let file = ParsedFile { path: path.to_string(), chunks, entities };
    idx.index_file(file, vectors, Vec::new(), Vec::new()).unwrap();
}

#[test]
fn test_entity_exact_match_finds_chunk() {
    let mut idx = make_indexer();
    index_one(
        &mut idx,
        "e.rs",
        vec![raw("e.rs:1:2", "e.rs", "pub struct MyType { x: u32 }\nfn f() {}\n")],
        vec![named_type("MyType", 1)],
    );
    let hit = idx.entity_exact_match("MyType");
    assert!(hit.is_some(), "expected entity_exact_match to find MyType");
    let hit_id = hit.unwrap();
    assert!(
        idx.chunk(&hit_id).map(|c| c.file == "e.rs").unwrap_or(false),
        "matched chunk should live in e.rs",
    );
}

#[test]
fn test_entity_exact_match_struct_ranks_first() {
    let mut idx = CodeIndexer::new("ent-rank-1", "/tmp/test");
    index_one(
        &mut idx,
        "src/types.rs",
        vec![raw(
            "src/types.rs:1:3",
            "src/types.rs",
            "pub struct FooBar { pub x: u32 }\n\nfn unrelated() { let _ = 1; }\n",
        )],
        vec![named_type("FooBar", 1)],
    );
    index_one(
        &mut idx,
        "src/other.rs",
        vec![raw("src/other.rs:1:1", "src/other.rs", "fn other_thing() {}\n")],
        Vec::new(),
    );
    let q = SearchQuery {
        text: "FooBar".to_string(),
        top_k: 5,
        expand_graph: false,
        compact: false,
    };
    let results = search(&idx, &q, QueryIntent::Definition);
    assert!(!results.is_empty(), "search must return at least one hit");
    assert_eq!(
        results[0].file,
        "src/types.rs",
        "FooBar's defining file must rank first; got {:?}",
        results.iter().map(|r| &r.file).collect::<Vec<_>>(),
    );
    assert!(
        results[0].content.contains("FooBar"),
        "rank-1 chunk must contain the FooBar definition; got {:?}",
        results[0].content,
    );
}

#[test]
fn test_entity_exact_match_skips_non_symbol_entities() {
    let mut idx = make_indexer();
    index_one(
        &mut idx,
        "lit.rs",
        vec![raw("lit.rs:1:1", "lit.rs", "fn f() { let _ = \"this is a long literal\"; }\n")],
        vec![RawEntity {
            text: "literal".to_string(),
            line: 1,
            entity_type: EntityType::Other("LiteralString".to_string()),
        }],
    );
    assert!(
        idx.entity_exact_match("literal").is_none(),
        "non-symbol entity types must not satisfy entity_exact_match"
    );
}

#[test]
fn test_entity_exact_match_skips_multiword_query() {
    let mut idx = make_indexer();
    index_one(
        &mut idx,
        "e.rs",
        vec![raw("e.rs:1:2", "e.rs", "use std::sync::Arc;\nfn f() {}\n")],
        vec![named_type("Arc", 1), named_type("Arc thing", 1)],
    );
    assert!(idx.entity_exact_match("Arc thing").is_none());
    assert!(idx.entity_exact_match("  arc ").is_some());
}

#[test]
fn test_virtual_terms_populated_from_entities() {
    let mut idx = make_indexer();
    let mut f = function(
        "v.rs:2:2",
        "v.rs",
        "f",
        "fn f() { let _x: Arc<String> = Arc::new(String::new()); }",
        &[],
    );
    f.start_line = 2;
    f.end_line = 2;
    index_one(&mut idx, "v.rs", vec![f], vec![named_type("Arc", 2), named_type("std", 1)]);
    let f_chunk = idx.chunk("v.rs:2:2").expect("f chunk");
    assert!(
        f_chunk.virtual_terms.iter().any(|t| t == "Arc"),
        "expected 'Arc' in virtual_terms, got {:?}",
        f_chunk.virtual_terms
    );
    assert_eq!(f_chunk.virtual_terms, vec!["Arc"]);
    assert_eq!(
        idx.document("v.rs:2:2").unwrap(),
        "fn f() { let _x: Arc<String> = Arc::new(String::new()); } Arc"
    );
}

#[test]
fn test_get_embedding_returns_some_after_indexing() {
    let mut idx = make_indexer();
    add(&mut idx, raw("a:1:1", "a.rs", "fn alpha() {}"));
    let emb = idx.get_embedding("a:1:1");
    assert!(emb.is_some(), "expected embedding cached after add_chunk");
    assert_eq!(emb.unwrap(), vector("fn alpha() {}"));
    assert!(idx.get_embedding("nope").is_none());
}

#[test]
fn test_similar_by_embedding_excludes_seed() {
    let mut idx = make_indexer();
    add(&mut idx, raw("a:1:1", "a.rs", "fn alpha() {}"));
    add(&mut idx, raw("b:1:1", "b.rs", "fn beta() {}"));
    let hits = vec![
        ("a:1:1".to_string(), (1.0f32).to_bits()),
        ("b:1:1".to_string(), (0.5f32).to_bits()),
        ("gone".to_string(), (0.4f32).to_bits()),
    ];
    assert_eq!(similar_want(5), 6);
    assert_eq!(similar_want(usize::MAX), usize::MAX);
    assert!(idx.similar_by_embedding(&hits, 0, None).is_empty());
    let results = idx.similar_by_embedding(&hits, 5, Some("a:1:1"));
    assert!(results.iter().all(|c| c.id != "a:1:1"));
    assert!(results.iter().all(|c| c.match_reason == "vector"));
    assert_eq!(results.len(), 1);
    assert_eq!(results[0].id, "b:1:1");
}

#[test]
fn test_index_files_batch_indexes_all_chunks_once() {
    let mut idx = make_indexer();
    let a = ParsedFile {
        path: "src/a.rs".to_string(),
        chunks: vec![
            function("src/a.rs:1:1", "src/a.rs", "alpha", "fn alpha() { beta(); }", &["beta"]),
            function("src/a.rs:2:2", "src/a.rs", "beta", "fn beta() {}", &[]),
        ],
        entities: vec![named_type("Alpha", 1)],
    };
    let b = ParsedFile {
        path: "src/b.rs".to_string(),
        chunks: vec![
            function("src/b.rs:1:1", "src/b.rs", "gamma", "fn gamma() {}", &[]),
            function("src/b.rs:2:2", "src/b.rs", "delta", "fn delta() { gamma(); }", &["gamma"]),
        ],
        entities: Vec::new(),
    };
    let (chunks, entities_by_file) = gather_files(vec![a, b]);
    assert_eq!(entities_by_file.len(), 2);
    let batches = embed_batches(&chunks);
    assert_eq!(batches.len(), 1);
    assert_eq!(batches[0].len(), 4);
    let mut embeddings = Vec::new();
    let got = batches[0].iter().map(|t| vector(t)).collect();
    accept_embeddings(&mut embeddings, 4, got).unwrap();
    let (added, dropped) =
        idx.commit_parsed_batch(ParsedBatch { chunks, embeddings, entities_by_file });
    assert!(added >= 4, "expected at least 4 chunks, got {added}");
    assert_eq!(dropped, 0);
    assert!(idx.symbol_tuples().len() >= 4);
    assert_eq!(idx.entities_for("src/a.rs").unwrap().len(), 1);
    assert_eq!(idx.entities_for("src/b.rs").unwrap().len(), 0);
    assert!(idx.entities_for("src/c.rs").is_none());
    let q = SearchQuery {
        text: "fn alpha".to_string(),
        top_k: 5,
        expand_graph: false,
        compact: false,
    };
    let r = search(&idx, &q, QueryIntent::Definition);
    assert!(r.iter().any(|c| c.file == "src/a.rs"));
}

#[test]
fn test_index_files_batch_empty_input_is_noop() {
    let mut idx = make_indexer();
    let (chunks, entities_by_file) = gather_files(Vec::new());
    assert!(embed_batches(&chunks).is_empty());
    let (added, _) =
        idx.commit_parsed_batch(ParsedBatch { chunks, embeddings: Vec::new(), entities_by_file });
    assert_eq!(added, 0);
    assert_eq!(idx.index_files_batch(Vec::new(), Vec::new()), (0, 0));
    assert_eq!(idx.chunk_count(), 0);
}

#[test]
fn test_index_files_batch_bm25_only_mode() {
    let mut idx = CodeIndexer::new("bm25-batch", "/tmp/test");
    let file = ParsedFile {
        path: "x.rs".to_string(),
        chunks: vec![
            raw("x.rs:1:1", "x.rs", "fn authenticate() {}"),
            raw("x.rs:2:2", "x.rs", "fn other() {}"),
        ],
        entities: Vec::new(),
    };
    let (added, _) = idx.index_files_batch(vec![file], vec![None, None]);
    assert!(added >= 2);
    let q = SearchQuery {
        text: "authenticate".to_string(),
        top_k: 5,
        expand_graph: false,
        compact: false,
    };
    let r = search(&idx, &q, QueryIntent::Unknown);
    assert!(r.iter().any(|c| c.content.contains("authenticate")));
}

fn two_files() -> Vec<ParsedFile> {
    let parsed = |path: &str, texts: [&str; 2], entities: Vec<RawEntity>| ParsedFile {
        path: path.to_string(),
        chunks: vec![
            raw(&format!("{path}:1:1"), path, texts[0]),
            raw(&format!("{path}:2:2"), path, texts[1]),
        ],
        entities,
    };
    vec![
        parsed("a.rs", ["struct Alpha;", "fn a() {}"], vec![named_type("Alpha", 1)]),
        parsed("b.rs", ["fn b() {}", "fn c() {}"], Vec::new()),
    ]
}

#[test]
fn batch_leaves_the_chunks_of_single_files() {
    let mut batch = make_indexer();
    let vectors: Vec<Option<Vec<u32>>> =
        ["struct Alpha;", "fn a() {}", "fn b() {}", "fn c() {}"].iter().map(|t| Some(vector(t))).collect();
    assert_eq!(batch.index_files_batch(two_files(), vectors), (4, 0));
    let mut single = make_indexer();
    for file in two_files() {
        let vectors = file.chunks.iter().map(|c| Ok(vector(&c.content))).collect();
        single.index_file(file, vectors, Vec::new(), Vec::new()).unwrap();
    }
    assert_eq!(batch.chunk_count(), 4);
    assert_eq!(single.chunk_count(), 4);
    for id in ["a.rs:1:1", "a.rs:2:2", "b.rs:1:1", "b.rs:2:2"] {
        let (x, y) = (batch.chunk(id).unwrap(), single.chunk(id).unwrap());
        assert_eq!(x.content, y.content);
        assert_eq!(x.virtual_terms, y.virtual_terms);
        assert_eq!(batch.get_embedding(id), single.get_embedding(id));
    }
    assert_eq!(batch.chunk("a.rs:1:1").unwrap().virtual_terms, vec!["Alpha".to_string()]);
    assert_eq!(batch.entity_file_count(), 2);
    assert_eq!(batch.entity_file_at(0), "a.rs");
    assert_eq!(batch.entities_at(0).len(), 1);
    assert_eq!(batch.entities_at(1).len(), 0);
}

#[test]
fn test_intent_routing_definitions() {
    let tenths = |w: (u8, u8, bool)| (w.0 as f32 / 10.0, w.1 as f32 / 10.0, w.2);
    let (a, b, kg) = tenths(QueryIntent::Definition.weights());
    assert!((a - 0.3).abs() < 1e-6 && (b - 0.7).abs() < 1e-6 && !kg);
    let (a, b, kg) = tenths(QueryIntent::Usage.weights());
    assert!((a - 0.5).abs() < 1e-6 && (b - 0.5).abs() < 1e-6 && kg);
}

#[test]
fn test_enumerate_chunks_paginates_stable_order() {
    let mut idx = make_indexer();
    let raw_lines = |id: &str, file: &str, start: usize, end: usize, content: &str| {
        let mut r = raw(id, file, content);
        r.start_line = start;
        r.end_line = end;
        r
    };
    add(&mut idx, raw_lines("b.rs:10:20", "b.rs", 10, 20, "fn b_two() {}"));
    add(&mut idx, raw_lines("a.rs:1:5", "a.rs", 1, 5, "fn a_one() {}"));
    add(&mut idx, raw_lines("b.rs:1:5", "b.rs", 1, 5, "fn b_one() {}"));
    add(&mut idx, raw_lines("a.rs:30:40", "a.rs", 30, 40, "fn a_two() {}"));

    let (total_all, all) = idx.enumerate_chunks(0, 100);
    assert_eq!(total_all, 4);
    let ids: Vec<_> = all.iter().map(|c| c.id.as_str()).collect();
    assert_eq!(ids, vec!["a.rs:1:5", "a.rs:30:40", "b.rs:1:5", "b.rs:10:20"]);

    let (total_p1, page1) = idx.enumerate_chunks(0, 2);
    let (total_p2, page2) = idx.enumerate_chunks(2, 2);
    assert_eq!(total_p1, 4);
    assert_eq!(total_p2, 4);
    assert_eq!(page1.len(), 2);
    assert_eq!(page2.len(), 2);
    let combined: Vec<_> = page1.iter().chain(page2.iter()).map(|c| c.id.as_str()).collect();
    assert_eq!(combined, ids);

    let (total_end, end) = idx.enumerate_chunks(10, 5);
    assert_eq!(total_end, 4);
    assert!(end.is_empty());

    let (total_rest, rest) = idx.enumerate_chunks(1, usize::MAX);
    assert_eq!((total_rest, rest.len()), (4, 3));
    assert_eq!(rest[0].id, "a.rs:30:40");

    let mut paged: Vec<String> = Vec::new();
    for n in 0..2 {
        paged.extend(idx.enumerate_chunks(n * 3, 3).1.into_iter().map(|c| c.id));
    }
    assert_eq!(paged, ids);

    let (total_z, z) = idx.enumerate_chunks(0, 0);
    assert_eq!(total_z, 4);
    assert!(z.is_empty());

    assert_eq!(idx.all_chunks().len(), 4);
}

#[test]
fn test_memory_limit_env_parse() {
    assert_eq!(memory_limit_mb(None), None);
    assert_eq!(memory_limit_mb(Some("4096")), Some(4096));
    assert_eq!(memory_limit_mb(Some("0")), None);
    assert_eq!(memory_limit_mb(Some("-5")), None);
    assert_eq!(memory_limit_mb(Some("lots")), None);
    assert_eq!(memory_limit_mb(Some(" 4096")), None);
}

#[test]
fn test_current_rss_mb_nonzero() {
    let bytes = sysinfo::get_current_pid().ok().and_then(|pid| {
        let mut sys = sysinfo::System::new();
        sys.refresh_processes(sysinfo::ProcessesToUpdate::Some(&[pid]), true);
        sys.process(pid).map(|p| p.memory())
    });
    if let Some(mb) = current_rss_mb(bytes) {
        assert!(mb > 0, "current process RSS should be > 0 MB, got {mb}");
    }
    assert_eq!(current_rss_mb(Some(3 * 1_048_576 + 1)), Some(3));
    assert_eq!(current_rss_mb(None), None);
}

#[test]
fn test_over_memory_limit_false_when_unset() {
    assert!(!over_memory_limit(None, Some(1_000_000)));
    assert!(!over_memory_limit(Some(100), None));
    assert!(over_memory_limit(Some(100), Some(100)));
    assert!(!over_memory_limit(Some(100), Some(99)));
}

// --- limits and caches -----------------------------------------------------

#[test]
fn settings_fall_back_to_their_defaults() {
    assert_eq!(embedding_cache_cap(None), 10_000);
    assert_eq!(embedding_cache_cap(Some("0")), 10_000);
    assert_eq!(embedding_cache_cap(Some("77")), 77);
    assert_eq!(max_chunks_per_index(None), 500_000);
    assert_eq!(max_chunks_per_index(Some("x")), 500_000);
    assert_eq!(max_chunks_per_index(Some("3")), 3);
    let mut idx = CodeIndexer::from_settings("t", "/t", Some("5"), Some("1"));
    assert!(idx.add_chunk(raw("a", "a.rs", "one"), None));
    assert!(!idx.add_chunk(raw("b", "b.rs", "two"), None));
    let mut wide = CodeIndexer::from_settings("t", "/t", Some("18446744073709551615"), None);
    assert!(wide.add_chunk(raw("a", "a.rs", "one"), None));
}

#[test]
fn a_full_index_takes_only_new_versions() {
    let mut idx = CodeIndexer::with_limits("t", "/t", 10, 2);
    assert!(idx.add_chunk(raw("a", "a.rs", "one"), None));
    assert!(idx.add_chunk(raw("b", "b.rs", "two"), None));
    assert!(!idx.add_chunk(raw("c", "c.rs", "three"), None));
    assert_eq!(idx.chunk_count(), 2);
    assert!(idx.chunk("c").is_none());
    assert!(idx.add_chunk(raw("a", "a.rs", "newer"), None));
    assert_eq!(idx.chunk("a").unwrap().content, "newer");
    assert_eq!(idx.document("a").unwrap(), "newer");
    assert!(idx.admits("b") && !idx.admits("c"));
}

#[test]
fn a_batch_over_the_limit_is_cut() {
    let mut idx = CodeIndexer::with_limits("t", "/t", 10, 2);
    let chunks = vec![raw("a", "f", "1"), raw("b", "f", "2"), raw("c", "f", "3")];
    let r = idx.commit_parsed_batch(ParsedBatch {
        chunks,
        embeddings: vec![None, None, None],
        entities_by_file: Vec::new(),
    });
    assert_eq!(r, (2, 1));
    assert_eq!(idx.chunk_count(), 2);
    let mut one = CodeIndexer::with_limits("bm25-batch", "/tmp/test", 10, 1);
    let file = ParsedFile {
        path: "x.rs".to_string(),
        chunks: vec![
            raw("x.rs:1:1", "x.rs", "fn authenticate() {}"),
            raw("x.rs:2:2", "x.rs", "fn other() {}"),
        ],
        entities: Vec::new(),
    };
    assert_eq!(one.index_files_batch(vec![file], vec![None, None]), (1, 1));
    assert_eq!(one.chunk_count(), 1);
}

#[test]
fn a_chunk_that_was_cut_has_no_embedding() {
    let mut idx = CodeIndexer::with_limits("t", "/t", 10, 1).with_components();
    let r = idx.commit_parsed_batch(ParsedBatch {
        chunks: vec![raw("a", "f", "1"), raw("b", "f", "2")],
        embeddings: vec![Some(vector("1")), Some(vector("2"))],
        entities_by_file: Vec::new(),
    });
    assert_eq!(r, (1, 1));
    assert_eq!(idx.get_embedding("a"), Some(vector("1")));
    assert!(idx.get_embedding("b").is_none());
}

fn version(path: &str, ids: &[&str], content: &str) -> ParsedFile {
    ParsedFile {
        path: path.to_string(),
        chunks: ids.iter().map(|id| raw(id, path, content)).collect(),
        entities: Vec::new(),
    }
}

#[test]
fn a_file_that_is_indexed_again_is_replaced() {
    let mut idx = CodeIndexer::new("t", "/t");
    let none = |n: usize| (0..n).map(|_| Ok(Vec::new())).collect::<Vec<Result<Vec<u32>, String>>>();
    let other = version("b.rs", &["b:1"], "other");
    idx.index_file(other, none(1), Vec::new(), Vec::new()).unwrap();
    let first = version("a.rs", &["a:1", "a:2"], "old");
    idx.index_file(first, none(2), Vec::new(), Vec::new()).unwrap();
    let second = version("a.rs", &["a:2", "a:3"], "new");
    idx.index_file(second, none(2), Vec::new(), Vec::new()).unwrap();
    assert_eq!(idx.chunk_count(), 3);
    assert!(idx.chunk("a:1").is_none());
    assert!(idx.document("a:1").is_none());
    assert_eq!(idx.chunk("a:2").unwrap().content, "new");
    assert_eq!(idx.chunk("b:1").unwrap().content, "other");
}

#[test]
fn a_full_index_takes_a_new_version_in_place_of_the_old() {
    let mut idx = CodeIndexer::with_limits("t", "/t", 10, 2);
    let none = || vec![Ok(Vec::new()), Ok(Vec::new())];
    let first = version("a.rs", &["a:1", "a:2"], "old");
    idx.index_file(first, none(), Vec::new(), Vec::new()).unwrap();
    let second = version("a.rs", &["a:3", "a:4"], "new");
    idx.index_file(second, none(), Vec::new(), Vec::new()).unwrap();
    assert_eq!(idx.chunk_count(), 2);
    assert!(idx.chunk("a:1").is_none() && idx.chunk("a:2").is_none());
    assert!(idx.chunk("a:3").is_some() && idx.chunk("a:4").is_some());
}

#[test]
fn a_batch_replaces_its_files() {
    let mut idx = CodeIndexer::new("t", "/t");
    idx.index_files_batch(
        vec![version("a.rs", &["a:1", "a:2"], "old"), version("b.rs", &["b:1"], "other")],
        vec![None, None, None],
    );
    let r = idx.index_files_batch(vec![version("a.rs", &["a:3"], "new")], vec![None]);
    assert_eq!(r, (1, 0));
    assert_eq!(idx.chunk_count(), 2);
    assert!(idx.chunk("a:1").is_none() && idx.chunk("a:2").is_none());
    assert!(idx.chunk("a:3").is_some() && idx.chunk("b:1").is_some());
    idx.index_files_batch(vec![version("a.rs", &[], "")], Vec::new());
    assert_eq!(idx.chunk_count(), 1);
}

#[test]
fn what_is_left_of_earlier_versions_is_told() {
    let mut idx = make_indexer();
    add(&mut idx, raw("a:1", "a.rs", "one"));
    add(&mut idx, raw("a:2", "a.rs", "two"));
    add(&mut idx, raw("b:1", "b.rs", "three"));
    let gone = idx.remove_stale(&vec!["a.rs".to_string()], &vec!["a:2".to_string()]);
    assert_eq!(gone, vec!["a:1"]);
    assert!(idx.get_embedding("a:1").is_none());
    assert!(idx.get_embedding("a:2").is_some());
    assert_eq!(idx.chunk_count(), 2);
}

#[test]
fn a_removed_file_is_gone() {
    let mut idx = make_indexer();
    add(&mut idx, raw("a:1", "a.rs", "one"));
    add(&mut idx, raw("a:2", "a.rs", "two"));
    add(&mut idx, raw("b:1", "b.rs", "three"));
    idx.set_entities("a.rs".to_string(), vec![named_type("A", 1)]);
    let mut ids = idx.remove_file("a.rs");
    ids.sort();
    assert_eq!(ids, vec!["a:1", "a:2"]);
    assert_eq!(idx.chunk_count(), 1);
    assert!(idx.entities_for("a.rs").is_none());
    assert!(idx.get_embedding("a:1").is_none());
    assert!(idx.remove_file("a.rs").is_empty());
}

#[test]
fn the_embedding_cache_forgets_the_oldest() {
    let mut c = EmbeddingCache::new(2);
    assert!(c.is_empty());
    c.put("a".to_string(), vec![1]);
    c.put("b".to_string(), vec![2]);
    assert_eq!(c.peek("a"), Some(vec![1]));
    c.put("c".to_string(), vec![3]);
    assert_eq!(c.peek("a"), None);
    assert_eq!(c.peek("b"), Some(vec![2]));
    c.pop("b");
    assert_eq!(c.peek("b"), None);
    assert!(!c.is_empty());
}

#[test]
fn the_query_cache_forgets_the_least_recently_used() {
    let mut c = QueryCache::new(2);
    c.put(1, vec![1]);
    c.put(2, vec![2]);
    assert_eq!(c.get(1), Some(vec![1]));
    c.put(3, vec![3]);
    assert_eq!(c.get(2), None);
    assert_eq!(c.get(1), Some(vec![1]));
}

#[test]
fn a_chunk_that_cannot_be_embedded_stops_its_file() {
    let mut idx = make_indexer();
    let chunks = vec![raw("a:1", "a.rs", "one"), raw("a:2", "a.rs", "two"), raw("a:3", "a.rs", "x")];
    let vectors = vec![Ok(vec![1]), Err("embed chunk content".to_string()), Ok(vec![3])];
    let file = ParsedFile {
        path: "a.rs".to_string(),
        chunks,
        entities: vec![named_type("A", 1)],
    };
    let r = idx.index_file(file, vectors, Vec::new(), Vec::new());
    assert_eq!(r, Err("embed chunk content".to_string()));
    assert!(idx.chunk("a:1").is_some());
    assert!(idx.chunk("a:2").is_none() && idx.chunk("a:3").is_none());
    assert!(idx.entities_for("a.rs").is_none());
}

#[test]
fn entities_come_from_three_places() {
    let all = enrich_with_nlp_entities(
        vec![named_type("a", 1)],
        vec![named_type("b", 2)],
        vec![named_type("c", 3)],
        true,
    );
    let texts: Vec<_> = all.iter().map(|e| e.text.as_str()).collect();
    assert_eq!(texts, vec!["a", "b", "c"]);
    let all =
        enrich_with_nlp_entities(vec![named_type("a", 1)], vec![], vec![named_type("c", 3)], false);
    assert_eq!(all.len(), 1);
}

#[test]
fn embedding_counts_have_to_match() {
    let mut out = Vec::new();
    assert!(accept_embeddings(&mut out, 2, vec![vec![1]]).is_err());
    assert!(accept_embeddings(&mut out, 1, vec![vec![1]]).is_ok());
    assert_eq!(out, vec![Some(vec![1])]);
}

#[test]
fn texts_are_embedded_in_batches() {
    let chunks: Vec<RawChunk> = (0..130).map(|i| raw(&format!("c{i}"), "f", "x")).collect();
    let batches = embed_batches(&chunks);
    assert_eq!(batches.iter().map(|b| b.len()).collect::<Vec<_>>(), vec![128, 2]);
}

#[test]
fn vectors_are_those_of_embedded_chunks() {
    let batch = ParsedBatch {
        chunks: vec![raw("a", "f", "1"), raw("b", "f", "2")],
        embeddings: vec![None, Some(vec![7])],
        entities_by_file: Vec::new(),
    };
    assert_eq!(batch.vectors(), vec![("b".to_string(), vec![7])]);
}

// --- chunks and queries ----------------------------------------------------

#[test]
fn snippets_hold_the_lines_around_the_centre() {
    assert_eq!(build_compact_snippet("a\nb"), "a\nb");
    assert_eq!(build_compact_snippet("1\n2\n3\n4\n5\n6\n7\n8"), "1\n2\n3\n4\n5\n6\n7");
    assert_eq!(build_compact_snippet("1\n2\n3\n4\n5\n6\n7\n8\n9"), "2\n3\n4\n5\n6\n7\n8");
}

#[test]
fn reasons_name_the_lanes() {
    assert_eq!(compute_match_reason(true, true, false), "hybrid");
    assert_eq!(compute_match_reason(true, false, false), "vector");
    assert_eq!(compute_match_reason(false, true, false), "bm25");
    assert_eq!(compute_match_reason(false, false, true), "hybrid+kg");
}

#[test]
fn a_result_carries_its_chunk() {
    let mut c = function("x:1", "x.rs", "f", "fn f() {}", &["g"]);
    c.chunk_depth = 300;
    let r = raw_to_code_chunk(&c, 5, "bm25", None);
    assert_eq!((r.id.as_str(), r.file.as_str(), r.score), ("x:1", "x.rs", 5));
    assert_eq!(r.function_name.as_deref(), Some("f"));
    assert_eq!(r.calls, vec!["g"]);
    assert!(r.index_id.is_none());
}

#[test]
fn terms_come_from_the_lines_of_the_chunk_and_once() {
    let mut chunks = vec![raw("a", "f", "body")];
    chunks[0].start_line = 2;
    chunks[0].end_line = 4;
    let entities =
        vec![named_type("X", 1), named_type("Y", 2), named_type("Y", 3), named_type("Z", 4)];
    populate_virtual_terms(&mut chunks, &entities);
    assert_eq!(chunks[0].virtual_terms, vec!["Y", "Z"]);
    assert_eq!(bm25_doc_text(&chunks[0]), "body Y Z");
}

#[test]
fn query_defaults() {
    assert_eq!(default_top_k(), 10);
    assert!(default_true());
    let q = SearchQuery::of_text("x".to_string());
    assert_eq!((q.top_k, q.expand_graph, q.compact), (10, true, true));
    assert_eq!(search_want(5), 20);
}

#[test]
fn weights_share_the_whole() {
    for i in [
        QueryIntent::Definition,
        QueryIntent::Usage,
        QueryIntent::Conceptual,
        QueryIntent::BugDebt,
        QueryIntent::Unknown,
    ] {
        let (a, b, _) = i.weights();
        assert_eq!(a + b, 10);
    }
    assert_eq!(QueryIntent::Conceptual.weights(), (8, 2, false));
    assert_eq!(QueryIntent::BugDebt.weights(), (1, 9, false));
    assert_eq!(QueryIntent::Unknown.weights(), (6, 4, false));
}

#[test]
fn usage_follows_calls() {
    let kinds = edge_kinds_for_intent(QueryIntent::Usage);
    assert!(kinds.contains(&EdgeKind::CalledByFunction));
}

#[test]
fn expansion_keeps_the_best_score_of_new_chunks() {
    let one = |s: &str, x: f32| (s.to_string(), x.to_bits());
    let seeds = vec![one("a", 1.0)];
    let derived = vec![one("b", 0.3), one("a", 0.9), one("b", 0.5), one("c", 0.4)];
    let out = kg_expand(3, &seeds, &derived);
    assert_eq!(out, vec![one("b", 0.5), one("c", 0.4)]);
    assert!(kg_expand(0, &seeds, &derived).is_empty());
    assert!(score_above((0.5f32).to_bits(), (0.25f32).to_bits()));
    assert!(score_above((0.0f32).to_bits(), (-1.0f32).to_bits()));
    assert!(!score_above((-2.0f32).to_bits(), (-1.0f32).to_bits()));
}

#[test]
fn an_exact_name_goes_first_and_once() {
    let hits = vec![("a".to_string(), 1), ("b".to_string(), 2)];
    let r = put_first(&hits, "b".to_string(), 9);
    assert_eq!(r, vec![("b".to_string(), 9), ("a".to_string(), 1)]);
}

#[test]
fn chunks_are_found_by_file_and_function() {
    let mut idx = make_indexer();
    add(&mut idx, function("src/a.rs:1:1", "src/a.rs", "alpha", "fn alpha() {}", &[]));
    add(&mut idx, function("src/a.rs:2:2", "src/a.rs", "beta", "fn beta() {}", &[]));
    assert_eq!(idx.find_chunk_id("a.rs", Some("beta")).as_deref(), Some("src/a.rs:2:2"));
    assert!(idx.find_chunk_id("a.rs", Some("gamma")).is_none());
    assert!(idx.find_chunk_id("z.rs", None).is_none());
    assert!(idx.find_chunk_id("a.rs", None).is_some());
}

#[test]
fn diversity_needs_embeddings() {
    let mut idx = CodeIndexer::new("t", "/t");
    add(&mut idx, raw("a", "a.rs", "x"));
    let fused = vec![("a".to_string(), 1), ("b".to_string(), 1)];
    assert!(idx.mmr_snapshot(&fused).is_none());
    let mut idx = make_indexer();
    add(&mut idx, raw("a", "a.rs", "x"));
    add(&mut idx, raw("b", "b.rs", "y"));
    let snapshot = idx.mmr_snapshot(&fused).unwrap();
    assert_eq!(snapshot[0], ("a".to_string(), vector("x")));
}
