//! What the daemon's HTTP handlers decide and answer.
use crate::engine::caches::value_of;
use crate::engine::chunk::{result_views, CodeChunk};
use crate::engine::indexer::CodeIndexer;
use crate::engine::listing::{is_wanted, page};
use crate::engine::registry::{IndexHandle, IndexId, IndexRegistry};
use crate::json::{
    empty_members, json_bool, json_number, json_object, json_text, json_view, no_members,
    number_tree, set_member, JsonTree,
};
use crate::paths::{path_key, path_sort_key};
use crate::sorting::{key_le, lex_le_antisymmetric, lex_le_total};
use crate::text::{concat, opt_text};
use std::sync::Arc;
use vstd::prelude::*;
use vstd::string::*;

verus! {

// ---------------------------------------------------------------------------
// Requests, events and answers
// ---------------------------------------------------------------------------

/// What subscribers of the daemon's status stream are told.
#[derive(Debug, Clone)]
pub enum DaemonEvent {
    StatusChanged { indexes: u64, total_chunks: u64, uptime_secs: u64, version: String },
}

/// A request for a new index.
#[derive(Debug, Clone)]
pub struct CreateIndexRequest {
    pub id: String,
    pub root_path: String,
}

/// A request to index one file.
#[derive(Debug, Clone)]
pub struct IndexFileRequest {
    pub path: String,
    pub content: String,
}

/// A request to remove one file.
#[derive(Debug, Clone)]
pub struct RemoveFileRequest {
    pub path: String,
}

/// A request for chunks like those of a file or function.
#[derive(Debug, Clone)]
pub struct SearchSimilarRequest {
    pub file: String,
    pub function: Option<String>,
    pub top_k: usize,
}

/// Results of a similarity search that does not say how many it wants.
pub fn default_similar_top_k() -> (k: usize)
    ensures
        k == 10,
{
    10
}

/// A request for one page of an index's chunks.
#[derive(Debug, Clone, Copy)]
pub struct ChunksParams {
    pub offset: usize,
    pub limit: usize,
}

/// Chunks of a page where the request does not say how many.
pub fn default_chunks_limit() -> (n: usize)
    ensures
        n == 100,
{
    100
}

/// Chunks that one page holds at most.
pub const MAX_CHUNKS_LIMIT: usize = 1_000;

/// A request to index a directory again.
#[derive(Debug, Clone)]
pub struct ReindexRequest {
    pub root_path: Option<String>,
    pub force: Option<bool>,
}

/// Why a request is not answered.
#[derive(Debug, Clone, Copy, PartialEq, Eq, Structural)]
pub enum HandlerError {
    /// The index, chunk or embedding is not there.
    NotFound,
    /// Something behind the handler failed.
    Internal,
}

/// How the daemon is.
#[derive(Debug, Clone)]
pub struct HealthResponse {
    pub status: String,
    pub version: String,
    pub indexes: usize,
    pub uptime_secs: u64,
}

/// How the daemon is: alive, with so many indexes, for so long.
pub fn health(registry: &IndexRegistry, version: &str, uptime_secs: u64) -> (r: HealthResponse)
    ensures
        r.status@ == "ok"@,
        r.version@ == version@,
        r.indexes == registry@.dom().len(),
        r.uptime_secs == uptime_secs,
{
    HealthResponse {
        status: "ok".to_owned(),
        version: version.to_owned(),
        indexes: registry.len(),
        uptime_secs,
    }
}

/// The sum of the known counts, capped at the largest number.
pub open spec fn capped_total(counts: Seq<Option<usize>>) -> int
    decreases counts.len(),
{
    if counts.len() == 0 {
        0
    } else {
        let rest = capped_total(counts.drop_last());
        match counts.last() {
            Some(n) => if rest + n > usize::MAX {
                usize::MAX as int
            } else {
                rest + n
            },
            None => rest,
        }
    }
}

/// The number of indexes and of their chunks, given the chunk count of each
/// index that is still there.
pub fn collect_status_counts(counts: &Vec<Option<usize>>) -> (r: (usize, usize))
    ensures
        r.0 == counts@.len(),
        r.1 == capped_total(counts@),
{
    let mut total: usize = 0;
    assert(counts@.take(0) =~= Seq::empty());
    for i in 0..counts.len()
        invariant
            total == capped_total(counts@.take(i as int)),
    {
        assert(counts@.take(i + 1).drop_last() =~= counts@.take(i as int));
        if let Some(n) = counts[i] {
            total = total.saturating_add(n);
        }
    }
    assert(counts@.take(counts@.len() as int) =~= counts@);
    (counts.len(), total)
}

// ---------------------------------------------------------------------------
// Indexes
// ---------------------------------------------------------------------------

/// The answer to a request for a new index.
pub open spec fn create_answer(id: Seq<char>, created: bool) -> JsonTree {
    let base = empty_members().insert("id"@, JsonTree::Text(id)).insert(
        "created"@,
        JsonTree::Bool(created),
    );
    JsonTree::Object(
        if created {
            base
        } else {
            base.insert("reason"@, JsonTree::Text("already exists"@))
        },
    )
}

/// Registers a new index; one that is there already is left alone. Says whether
/// it is new, and what to answer.
pub fn create_index(registry: &mut IndexRegistry, req: &CreateIndexRequest) -> (r: (
    bool,
    serde_json::Value,
))
    ensures
        r.0 == !old(registry)@.contains_key(req.id@),
        json_view(r.1) == create_answer(req.id@, r.0),
        !r.0 ==> final(registry)@ == old(registry)@,
        r.0 ==> exists|h: IndexHandle| #[trigger]
            is_bare(h, req.id@, req.root_path@) && final(registry)@ == old(registry)@.insert(
                req.id@,
                h,
            ),
{
    let id = IndexId::new(req.id.as_str());
    let mut m = no_members();
    set_member(&mut m, "id", json_text(req.id.clone()));
    if registry.get(&id).is_some() {
        set_member(&mut m, "created", json_bool(false));
        set_member(&mut m, "reason", json_text("already exists".to_owned()));
        return (false, json_object(m));
    }
    let handle = IndexHandle::bare(id, req.root_path.clone());
    assert(is_bare(handle, req.id@, req.root_path@));
    registry.register(handle);
    set_member(&mut m, "created", json_bool(true));
    (true, json_object(m))
}

/// Whether the handle is of the index and root, without filters or domain terms.
pub open spec fn is_bare(h: IndexHandle, id: Seq<char>, root: Seq<char>) -> bool {
    &&& h.id@ == id
    &&& h.root_path@ == root
    &&& h.include_paths@.len() == 0
    &&& h.exclude_globs@.len() == 0
    &&& h.extensions@.len() == 0
    &&& h.domain_terms@.len() == 0
}

/// Drops an index; says whether it was there, and what to answer.
pub fn delete_index(registry: &mut IndexRegistry, id: &str) -> (r: (bool, serde_json::Value))
    ensures
        r.0 == old(registry)@.contains_key(id@),
        final(registry)@ == old(registry)@.remove(id@),
        json_view(r.1) == JsonTree::Object(
            empty_members().insert("id"@, JsonTree::Text(id@)).insert(
                "removed"@,
                JsonTree::Bool(r.0),
            ),
        ),
{
    let removed = registry.unregister(&IndexId::new(id));
    let mut m = no_members();
    set_member(&mut m, "id", json_text(id.to_owned()));
    set_member(&mut m, "removed", json_bool(removed));
    (removed, json_object(m))
}

/// The handle of an index.
pub fn find_index(registry: &IndexRegistry, id: &str) -> (r: Result<Arc<IndexHandle>, HandlerError>)
    ensures
        match r {
            Ok(h) => registry@.contains_key(id@) && registry@[id@] == *h,
            Err(e) => !registry@.contains_key(id@) && e == HandlerError::NotFound,
        },
{
    match registry.get(&IndexId::new(id)) {
        Some(h) => Ok(h),
        None => Err(HandlerError::NotFound),
    }
}

/// The answer to a question for the state of an index.
pub fn index_status(registry: &IndexRegistry, id: &str, chunk_count: usize) -> (r: Result<
    serde_json::Value,
    HandlerError,
>)
    ensures
        match r {
            Ok(v) => registry@.contains_key(id@) && json_view(v) == JsonTree::Object(
                empty_members().insert("index_id"@, JsonTree::Text(id@)).insert(
                    "root_path"@,
                    JsonTree::Text(registry@[id@].root_path@),
                ).insert("chunk_count"@, number_tree(chunk_count as u64)),
            ),
            Err(e) => !registry@.contains_key(id@) && e == HandlerError::NotFound,
        },
{
    match find_index(registry, id) {
        Ok(handle) => {
            let mut m = no_members();
            set_member(&mut m, "index_id", json_text(id.to_owned()));
            set_member(&mut m, "root_path", json_text(handle.root_path.clone()));
            set_member(&mut m, "chunk_count", json_number(chunk_count as u64));
            Ok(json_object(m))
        },
        Err(e) => Err(e),
    }
}

/// The answer once a file was indexed.
pub fn index_file_answer(id: &str, path: &str) -> (v: serde_json::Value)
    ensures
        json_view(v) == JsonTree::Object(
            empty_members().insert("index_id"@, JsonTree::Text(id@)).insert(
                "path"@,
                JsonTree::Text(path@),
            ).insert("indexed"@, JsonTree::Bool(true)),
        ),
{
    let mut m = no_members();
    set_member(&mut m, "index_id", json_text(id.to_owned()));
    set_member(&mut m, "path", json_text(path.to_owned()));
    set_member(&mut m, "indexed", json_bool(true));
    json_object(m)
}

/// The answer once a file was removed.
pub fn remove_file_answer(id: &str, path: &str, removed_chunks: usize) -> (v: serde_json::Value)
    ensures
        json_view(v) == JsonTree::Object(
            empty_members().insert("index_id"@, JsonTree::Text(id@)).insert(
                "path"@,
                JsonTree::Text(path@),
            ).insert("removed_chunks"@, number_tree(removed_chunks as u64)),
        ),
{
    let mut m = no_members();
    set_member(&mut m, "index_id", json_text(id.to_owned()));
    set_member(&mut m, "path", json_text(path.to_owned()));
    set_member(&mut m, "removed_chunks", json_number(removed_chunks as u64));
    json_object(m)
}

// ---------------------------------------------------------------------------
// Similar chunks and pages
// ---------------------------------------------------------------------------

/// The chunk that a similarity search starts from, with its embedding.
pub fn similarity_seed(indexer: &CodeIndexer, req: &SearchSimilarRequest) -> (r: Result<
    (String, Vec<u32>),
    HandlerError,
>)
    requires
        indexer.wf(),
    ensures
        match r {
            Ok(seed) => {
                &&& indexer@.corpus.contains_key(seed.0@)
                &&& is_first_wanted(indexer, req, seed.0@)
                &&& value_of(indexer@.embeddings, seed.0@) == Some(seed.1@)
            },
            Err(e) => {
                &&& e == HandlerError::NotFound
                &&& (forall|k: Seq<char>| #[trigger]
                    indexer@.corpus.contains_key(k) ==> !is_wanted(
                        indexer@.corpus[k],
                        req.file@,
                        opt_text(req.function),
                    )) || (exists|k: Seq<char>| #[trigger]
                    is_first_wanted(indexer, req, k) && value_of(indexer@.embeddings, k) is None)
            },
        },
{
    let function = match &req.function {
        Some(f) => Some(f.as_str()),
        None => None,
    };
    match indexer.find_chunk_id(req.file.as_str(), function) {
        Some(id) => {
            assert(is_first_wanted(indexer, req, id@));
            match indexer.get_embedding(id.as_str()) {
                Some(e) => Ok((id, e)),
                None => Err(HandlerError::NotFound),
            }
        },
        None => Err(HandlerError::NotFound),
    }
}

/// Whether the chunk is one that the request means, and none of these starts
/// earlier.
pub open spec fn is_first_wanted(
    indexer: &CodeIndexer,
    req: &SearchSimilarRequest,
    id: Seq<char>,
) -> bool {
    &&& indexer@.corpus.contains_key(id)
    &&& is_wanted(indexer@.corpus[id], req.file@, opt_text(req.function))
    &&& forall|k: Seq<char>| #[trigger]
        indexer@.corpus.contains_key(k) && is_wanted(
            indexer@.corpus[k],
            req.file@,
            opt_text(req.function),
        ) ==> indexer@.corpus[id].start_line <= indexer@.corpus[k].start_line
}

/// One page of the chunks of an index.
pub struct ChunkPage {
    pub total: usize,
    pub offset: usize,
    pub limit: usize,
    pub chunks: Vec<CodeChunk>,
}

/// The page that a request asks for; no page holds more than the largest page.
pub fn chunk_page(indexer: &CodeIndexer, params: &ChunksParams) -> (r: ChunkPage)
    requires
        indexer.wf(),
    ensures
        r.total == indexer@.corpus.dom().len(),
        r.offset == params.offset,
        r.limit == (if params.limit < MAX_CHUNKS_LIMIT {
            params.limit
        } else {
            MAX_CHUNKS_LIMIT
        }),
        result_views(r.chunks@) == indexer.listed(
            page(indexer.listing(), params.offset as int, r.limit as int),
        ),
{
    let limit: usize = if params.limit < MAX_CHUNKS_LIMIT {
        params.limit
    } else {
        MAX_CHUNKS_LIMIT
    };
    let (total, chunks) = indexer.enumerate_chunks(params.offset, limit);
    ChunkPage { total, offset: params.offset, limit, chunks }
}

// ---------------------------------------------------------------------------
// Reindexing
// ---------------------------------------------------------------------------

fn same_path(a: &str, b: &str) -> (r: bool)
    ensures
        r == (path_key(a@) == path_key(b@)),
{
    let x = path_sort_key(a);
    let y = path_sort_key(b);
    proof {
        lex_le_total(x@, y@);
        lex_le_total(x@, x@);
    }
    let r = key_le(&x, &y) && key_le(&y, &x);
    proof {
        if r {
            lex_le_antisymmetric(x@, y@);
        }
    }
    r
}

/// Whether a request moves an index to another root.
pub open spec fn moves_root(current: Seq<char>, body: Option<ReindexRequest>) -> bool {
    body matches Some(req) && req.root_path matches Some(new_root) && (current.len() == 0
        || path_key(current) != path_key(new_root@))
}

/// The handle to reindex with, and whether the reindex is forced. A request that
/// names another root moves the index there first.
pub fn prepare_reindex(
    registry: &mut IndexRegistry,
    id: &str,
    body: Option<ReindexRequest>,
) -> (r: Result<(Arc<IndexHandle>, bool), HandlerError>)
    ensures
        match r {
            Ok(p) => {
                &&& old(registry)@.contains_key(id@)
                &&& p.1 == (body matches Some(req) && req.force == Some(true))
                &&& if moves_root(old(registry)@[id@].root_path@, body) {
                    is_bare(*p.0, id@, body->0.root_path->0@) && final(registry)@ == old(registry)@.insert(id@, *p.0)
                } else {
                    *p.0 == old(registry)@[id@] && final(registry)@ == old(registry)@
                }
            },
            Err(e) => e == HandlerError::NotFound && !old(registry)@.contains_key(id@) && final(registry)@ == old(registry)@,
        },
{
    let handle = match find_index(registry, id) {
        Ok(h) => h,
        Err(e) => return Err(e),
    };
    match body {
        Some(req) => {
            let force = match req.force {
                Some(f) => f,
                None => false,
            };
            match req.root_path {
                Some(new_root) => {
                    if handle.root_path.as_str().is_empty() || !same_path(
                        handle.root_path.as_str(),
                        new_root.as_str(),
                    ) {
                        let moved = IndexHandle::bare(IndexId::new(id), new_root);
                        Ok((registry.register(moved), force))
                    } else {
                        Ok((handle, force))
                    }
                },
                None => Ok((handle, force)),
            }
        },
        None => Ok((handle, false)),
    }
}

/// The answer once a reindex was queued: where its progress can be followed.
pub fn reindex_answer(id: &str) -> (v: serde_json::Value)
    ensures
        json_view(v) == JsonTree::Object(
            empty_members().insert("index_id"@, JsonTree::Text(id@)).insert(
                "queued"@,
                JsonTree::Bool(true),
            ).insert("stream_url"@, JsonTree::Text("/indexes/"@ + id@ + "/reindex/stream"@)),
        ),
{
    let head = concat("/indexes/", id);
    let url = concat(head.as_str(), "/reindex/stream");
    let mut m = no_members();
    set_member(&mut m, "index_id", json_text(id.to_owned()));
    set_member(&mut m, "queued", json_bool(true));
    set_member(&mut m, "stream_url", json_text(url));
    json_object(m)
}

// ---------------------------------------------------------------------------
// State
// ---------------------------------------------------------------------------

/// A language model on this machine.
#[derive(Debug, Clone)]
pub struct LocalModelConfig {
    pub enabled: bool,
    pub base_url: String,
    pub model: String,
}

/// Who answers chat messages.
#[derive(Debug, Clone)]
pub enum ChatChoice {
    /// A model on this machine.
    Local { base_url: String, model: String },
    /// A hosted model.
    OpenRouter { api_key: String, model: String },
    /// Nobody.
    Nobody,
}

/// What the daemon's handlers share.
pub struct SearchAppState {
    pub registry: IndexRegistry,
    pub daemon_port: Option<u16>,
    pub openrouter_enabled: bool,
    pub local_model: LocalModelConfig,
    pub openrouter_model: String,
    pub openrouter_api_key: String,
}

impl SearchAppState {
    /// Whether the hosted model counts as enabled exactly where a key is set.
    pub open spec fn wf(&self) -> bool {
        self.openrouter_enabled == (self.openrouter_api_key@.len() > 0)
    }

    /// The state around a registry, with the key found in the environment and
    /// the default models.
    pub fn new(
        registry: IndexRegistry,
        openrouter_api_key: String,
        local_model: LocalModelConfig,
        openrouter_model: String,
    ) -> (s: SearchAppState)
        ensures
            s.wf(),
            s.registry == registry,
            s.daemon_port is None,
            s.local_model == local_model,
            s.openrouter_model == openrouter_model,
            s.openrouter_api_key == openrouter_api_key,
    {
        let enabled = !openrouter_api_key.as_str().is_empty();
        SearchAppState {
            registry,
            daemon_port: None,
            openrouter_enabled: enabled,
            local_model,
            openrouter_model,
            openrouter_api_key,
        }
    }

    /// The state with another local model.
    pub fn with_local_model(self, cfg: LocalModelConfig) -> (s: SearchAppState)
        requires
            self.wf(),
        ensures
            s.wf(),
            s == (SearchAppState { local_model: cfg, ..self }),
    {
        let mut s = self;
        s.local_model = cfg;
        s
    }

    /// The state with another hosted model.
    pub fn with_openrouter_model(self, model: String) -> (s: SearchAppState)
        requires
            self.wf(),
        ensures
            s.wf(),
            s == (SearchAppState { openrouter_model: model, ..self }),
    {
        let mut s = self;
        s.openrouter_model = model;
        s
    }

    /// The state with another key; the hosted model is enabled by any key that
    /// is not empty.
    pub fn with_openrouter_api_key(self, api_key: String) -> (s: SearchAppState)
        ensures
            s.wf(),
            s == (SearchAppState {
                openrouter_api_key: api_key,
                openrouter_enabled: api_key@.len() > 0,
                ..self
            }),
    {
        let mut s = self;
        s.openrouter_enabled = !api_key.as_str().is_empty();
        s.openrouter_api_key = api_key;
        s
    }

    /// The state with the port that the daemon listens on.
    pub fn with_daemon_port(self, port: u16) -> (s: SearchAppState)
        requires
            self.wf(),
        ensures
            s.wf(),
            s == (SearchAppState { daemon_port: Some(port), ..self }),
    {
        let mut s = self;
        s.daemon_port = Some(port);
        s
    }

    /// Who answers chat messages, given whether a local model was found at its
    /// address: the local one where it is enabled and was found, else the hosted
    /// one where a key is set.
    pub fn chat_provider(&self, local_found: bool) -> (c: ChatChoice)
        ensures
            match c {
                ChatChoice::Local { base_url, model } => self.local_model.enabled && local_found
                    && base_url@ == self.local_model.base_url@ && model@ == self.local_model.model@,
                ChatChoice::OpenRouter { api_key, model } => !(self.local_model.enabled
                    && local_found) && self.openrouter_api_key@.len() > 0 && api_key@
                    == self.openrouter_api_key@ && model@ == self.openrouter_model@,
                ChatChoice::Nobody => !(self.local_model.enabled && local_found)
                    && self.openrouter_api_key@.len() == 0,
            },
    {
        if self.local_model.enabled && local_found {
            ChatChoice::Local {
                base_url: self.local_model.base_url.clone(),
                model: self.local_model.model.clone(),
            }
        } else if !self.openrouter_api_key.as_str().is_empty() {
            ChatChoice::OpenRouter {
                api_key: self.openrouter_api_key.clone(),
                model: self.openrouter_model.clone(),
            }
        } else {
            ChatChoice::Nobody
        }
    }
}

} // verus!
