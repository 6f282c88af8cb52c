//! The events that a reindex reports, and their JSON form.
use crate::json::{
    json_array, json_bool, json_number, json_object, json_text, no_members, set_member,
};
use crate::json::{compact_json, compact_text, empty_members, json_view, number_tree, trees, JsonTree};
use crate::text::texts;
use vstd::prelude::*;

verus! {

/// Milliseconds and counts of each stage, over a whole reindex.
#[derive(Debug, Clone, Copy, PartialEq, Eq)]
pub struct ReindexTimings {
    pub parse_ms: u64,
    pub embed_ms: u64,
    pub bm25_ms: u64,
    pub vector_upsert_ms: u64,
    pub kg_ms: u64,
    pub vector_count: usize,
    pub symbol_count: usize,
    pub edge_count: usize,
}

/// What a finished reindex reports.
#[derive(Debug, Clone, Copy, PartialEq, Eq)]
pub struct ReindexTotals {
    pub indexed: usize,
    pub total_chunks: usize,
    pub skipped: usize,
    pub errors: usize,
    pub elapsed_ms: u64,
    pub chunks_per_sec: u64,
    pub peak_rss_mb: u64,
    pub memory_limit_hit: bool,
    pub kg_skipped: bool,
    pub timings: ReindexTimings,
}

/// One progress report of a reindex.
#[derive(Debug, Clone)]
pub enum ReindexEvent {
    /// The files are known and work begins.
    Start { total_files: usize, index_id: String, root_path: String, force: bool },
    /// One file could not be read.
    FileError { file: String, message: String, indexed: usize, total_files: usize },
    /// One file was passed over: minified, or unchanged since the last time.
    Skip { file: String, minified: bool, indexed: usize, total_files: usize },
    /// A batch was indexed.
    Batch {
        batch_files: usize,
        batch_chunks: usize,
        indexed: usize,
        total_files: usize,
        elapsed_ms: u64,
        chunks_per_sec: u64,
    },
    /// A batch could not be indexed.
    BatchError { files: Vec<String>, message: String, indexed: usize, total_files: usize },
    /// All is done.
    Complete { totals: ReindexTotals },
}

/// What an event says.
#[verifier::ext_equal]
pub enum EventView {
    Start { total_files: usize, index_id: Seq<char>, root_path: Seq<char>, force: bool },
    FileError { file: Seq<char>, message: Seq<char>, indexed: usize, total_files: usize },
    Skip { file: Seq<char>, minified: bool, indexed: usize, total_files: usize },
    Batch {
        batch_files: usize,
        batch_chunks: usize,
        indexed: usize,
        total_files: usize,
        elapsed_ms: u64,
        chunks_per_sec: u64,
    },
    BatchError { files: Seq<Seq<char>>, message: Seq<char>, indexed: usize, total_files: usize },
    Complete { totals: ReindexTotals },
}

impl View for ReindexEvent {
    type V = EventView;

    open spec fn view(&self) -> EventView {
        match *self {
            ReindexEvent::Start { total_files, index_id, root_path, force } => EventView::Start {
                total_files,
                index_id: index_id@,
                root_path: root_path@,
                force,
            },
            ReindexEvent::FileError { file, message, indexed, total_files } => EventView::FileError {
                file: file@,
                message: message@,
                indexed,
                total_files,
            },
            ReindexEvent::Skip { file, minified, indexed, total_files } => EventView::Skip {
                file: file@,
                minified,
                indexed,
                total_files,
            },
            ReindexEvent::Batch {
                batch_files,
                batch_chunks,
                indexed,
                total_files,
                elapsed_ms,
                chunks_per_sec,
            } => EventView::Batch {
                batch_files,
                batch_chunks,
                indexed,
                total_files,
                elapsed_ms,
                chunks_per_sec,
            },
            ReindexEvent::BatchError {
                files,
                message,
                indexed,
                total_files,
            } => EventView::BatchError {
                files: texts(files@),
                message: message@,
                indexed,
                total_files,
            },
            ReindexEvent::Complete { totals } => EventView::Complete { totals },
        }
    }
}

/// What each event of a list says.
pub open spec fn event_views(v: Seq<ReindexEvent>) -> Seq<EventView> {
    v.map_values(|e: ReindexEvent| e@)
}

// ---------------------------------------------------------------------------
// JSON
// ---------------------------------------------------------------------------

/// The JSON list of some texts.
pub open spec fn text_list_tree(v: Seq<Seq<char>>) -> JsonTree {
    JsonTree::Array(v.map_values(|s: Seq<char>| JsonTree::Text(s)))
}

/// The JSON object of the stage timings.
pub open spec fn timings_tree(t: ReindexTimings) -> JsonTree {
    JsonTree::Object(
        empty_members()
            .insert("parse_ms"@, number_tree(t.parse_ms))
            .insert("embed_ms"@, number_tree(t.embed_ms))
            .insert("bm25_ms"@, number_tree(t.bm25_ms))
            .insert("vector_upsert_ms"@, number_tree(t.vector_upsert_ms))
            .insert("kg_ms"@, number_tree(t.kg_ms))
            .insert("vector_count"@, number_tree(t.vector_count as u64))
            .insert("symbol_count"@, number_tree(t.symbol_count as u64))
            .insert("edge_count"@, number_tree(t.edge_count as u64)),
    )
}

/// The members of the JSON object of an event, without those of its kind.
pub open spec fn tagged(kind: Seq<char>) -> Map<Seq<char>, JsonTree> {
    empty_members().insert("event"@, JsonTree::Text(kind))
}

/// The JSON object of an event.
pub open spec fn event_tree(e: EventView) -> JsonTree {
    match e {
        EventView::Start { total_files, index_id, root_path, force } => JsonTree::Object(
            tagged("start"@)
                .insert("total_files"@, number_tree(total_files as u64))
                .insert("index_id"@, JsonTree::Text(index_id))
                .insert("root_path"@, JsonTree::Text(root_path))
                .insert("force"@, JsonTree::Bool(force)),
        ),
        EventView::FileError { file, message, indexed, total_files } => JsonTree::Object(
            tagged("error"@)
                .insert("file"@, JsonTree::Text(file))
                .insert("message"@, JsonTree::Text(message))
                .insert("indexed"@, number_tree(indexed as u64))
                .insert("total_files"@, number_tree(total_files as u64)),
        ),
        EventView::Skip { file, minified, indexed, total_files } => JsonTree::Object(
            {
                let all = tagged("skip"@)
                    .insert("file"@, JsonTree::Text(file))
                    .insert("indexed"@, number_tree(indexed as u64))
                    .insert("total_files"@, number_tree(total_files as u64));
                if minified {
                    all.insert("reason"@, JsonTree::Text("minified"@))
                } else {
                    all
                }
            },
        ),
        EventView::Batch {
            batch_files,
            batch_chunks,
            indexed,
            total_files,
            elapsed_ms,
            chunks_per_sec,
        } => JsonTree::Object(
            tagged("batch"@)
                .insert("batch_files"@, number_tree(batch_files as u64))
                .insert("batch_chunks"@, number_tree(batch_chunks as u64))
                .insert("indexed"@, number_tree(indexed as u64))
                .insert("total_files"@, number_tree(total_files as u64))
                .insert("elapsed_ms"@, number_tree(elapsed_ms))
                .insert("chunks_per_sec"@, number_tree(chunks_per_sec)),
        ),
        EventView::BatchError { files, message, indexed, total_files } => JsonTree::Object(
            tagged("error"@)
                .insert("files"@, text_list_tree(files))
                .insert("message"@, JsonTree::Text(message))
                .insert("indexed"@, number_tree(indexed as u64))
                .insert("total_files"@, number_tree(total_files as u64)),
        ),
        EventView::Complete { totals } => JsonTree::Object(
            tagged("complete"@)
                .insert("indexed"@, number_tree(totals.indexed as u64))
                .insert("total_chunks"@, number_tree(totals.total_chunks as u64))
                .insert("skipped"@, number_tree(totals.skipped as u64))
                .insert("errors"@, number_tree(totals.errors as u64))
                .insert("elapsed_ms"@, number_tree(totals.elapsed_ms))
                .insert("chunks_per_sec"@, number_tree(totals.chunks_per_sec))
                .insert("peak_rss_mb"@, number_tree(totals.peak_rss_mb))
                .insert("memory_limit_hit"@, JsonTree::Bool(totals.memory_limit_hit))
                .insert("kg_skipped"@, JsonTree::Bool(totals.kg_skipped))
                .insert("timings"@, timings_tree(totals.timings)),
        ),
    }
}

fn text_list_json(v: &Vec<String>) -> (r: serde_json::Value)
    ensures
        json_view(r) == text_list_tree(texts(v@)),
{
    let mut items: Vec<serde_json::Value> = Vec::new();
    for i in 0..v.len()
        invariant
            items.len() == i,
            forall|j: int| 0 <= j < i ==> json_view(#[trigger] items@[j]) == JsonTree::Text(v@[j]@),
    {
        items.push(json_text(v[i].clone()));
    }
    assert(trees(items@) =~= texts(v@).map_values(|s: Seq<char>| JsonTree::Text(s)));
    json_array(items)
}

fn timings_json(t: &ReindexTimings) -> (r: serde_json::Value)
    ensures
        json_view(r) == timings_tree(*t),
{
    let mut m = no_members();
    set_member(&mut m, "parse_ms", json_number(t.parse_ms));
    set_member(&mut m, "embed_ms", json_number(t.embed_ms));
    set_member(&mut m, "bm25_ms", json_number(t.bm25_ms));
    set_member(&mut m, "vector_upsert_ms", json_number(t.vector_upsert_ms));
    set_member(&mut m, "kg_ms", json_number(t.kg_ms));
    set_member(&mut m, "vector_count", json_number(t.vector_count as u64));
    set_member(&mut m, "symbol_count", json_number(t.symbol_count as u64));
    set_member(&mut m, "edge_count", json_number(t.edge_count as u64));
    json_object(m)
}

/// The JSON object of an event.
pub fn event_json(e: &ReindexEvent) -> (v: serde_json::Value)
    ensures
        json_view(v) == event_tree(e@),
{
    let mut m = no_members();
    match e {
        ReindexEvent::Start { total_files, index_id, root_path, force } => {
            set_member(&mut m, "event", json_text("start".to_owned()));
            set_member(&mut m, "total_files", json_number(*total_files as u64));
            set_member(&mut m, "index_id", json_text(index_id.clone()));
            set_member(&mut m, "root_path", json_text(root_path.clone()));
            set_member(&mut m, "force", json_bool(*force));
        },
        ReindexEvent::FileError { file, message, indexed, total_files } => {
            set_member(&mut m, "event", json_text("error".to_owned()));
            set_member(&mut m, "file", json_text(file.clone()));
            set_member(&mut m, "message", json_text(message.clone()));
            set_member(&mut m, "indexed", json_number(*indexed as u64));
            set_member(&mut m, "total_files", json_number(*total_files as u64));
        },
        ReindexEvent::Skip { file, minified, indexed, total_files } => {
            set_member(&mut m, "event", json_text("skip".to_owned()));
            set_member(&mut m, "file", json_text(file.clone()));
            set_member(&mut m, "indexed", json_number(*indexed as u64));
            set_member(&mut m, "total_files", json_number(*total_files as u64));
            if *minified {
                set_member(&mut m, "reason", json_text("minified".to_owned()));
            }
        },
        ReindexEvent::Batch {
            batch_files,
            batch_chunks,
            indexed,
            total_files,
            elapsed_ms,
            chunks_per_sec,
        } => {
            set_member(&mut m, "event", json_text("batch".to_owned()));
            set_member(&mut m, "batch_files", json_number(*batch_files as u64));
            set_member(&mut m, "batch_chunks", json_number(*batch_chunks as u64));
            set_member(&mut m, "indexed", json_number(*indexed as u64));
            set_member(&mut m, "total_files", json_number(*total_files as u64));
            set_member(&mut m, "elapsed_ms", json_number(*elapsed_ms));
            set_member(&mut m, "chunks_per_sec", json_number(*chunks_per_sec));
        },
        ReindexEvent::BatchError { files, message, indexed, total_files } => {
            set_member(&mut m, "event", json_text("error".to_owned()));
            set_member(&mut m, "files", text_list_json(files));
            set_member(&mut m, "message", json_text(message.clone()));
            set_member(&mut m, "indexed", json_number(*indexed as u64));
            set_member(&mut m, "total_files", json_number(*total_files as u64));
        },
        ReindexEvent::Complete { totals } => {
            set_member(&mut m, "event", json_text("complete".to_owned()));
            set_member(&mut m, "indexed", json_number(totals.indexed as u64));
            set_member(&mut m, "total_chunks", json_number(totals.total_chunks as u64));
            set_member(&mut m, "skipped", json_number(totals.skipped as u64));
            set_member(&mut m, "errors", json_number(totals.errors as u64));
            set_member(&mut m, "elapsed_ms", json_number(totals.elapsed_ms));
            set_member(&mut m, "chunks_per_sec", json_number(totals.chunks_per_sec));
            set_member(&mut m, "peak_rss_mb", json_number(totals.peak_rss_mb));
            set_member(&mut m, "memory_limit_hit", json_bool(totals.memory_limit_hit));
            set_member(&mut m, "kg_skipped", json_bool(totals.kg_skipped));
            set_member(&mut m, "timings", timings_json(&totals.timings));
        },
    }
    json_object(m)
}

/// The event as one line of JSON.
pub fn event_line(e: &ReindexEvent) -> (s: String)
    ensures
        s@ == compact_text(event_tree(e@)),
{
    compact_json(&event_json(e))
}

} // verus!
