//! What the models of the data hold.
use crate::commands::doctor::{CheckResult, CheckView};
use crate::commands::integrate::{read_view, FileStatus, StatusView};
use crate::commands::reindex_client::{ClientAction, Reaction};
use crate::engine::chunk::{CodeChunk, RawChunk, RawEntity};
use crate::engine::indexer::{
    embedding_views, empty_index, entity_views, vector_views, CodeIndexer,
};
use crate::engine::indexing::vector_results;
use crate::engine::registry::IndexHandle;
use crate::service::global_search::{answers, lane_views};
use crate::service::hash_cache::entry_views;
use crate::service::reindex::{PendingFile, PendingView, ReindexProgress, ReindexRun};
use crate::service::server::{
    is_bare, is_first_wanted, SearchAppState, SearchSimilarRequest,
};
use vstd::prelude::*;

verus! {

/// Whether the model of a text is the text, and there is one where there is a text.
pub open spec fn models_text(model: Option<Seq<char>>, text: Option<String>) -> bool {
    match text {
        Some(s) => model == Some(s@),
        None => model is None,
    }
}

/// Whether the models are those of the texts, in order.
pub open spec fn models_texts(models: Seq<Seq<char>>, texts: Seq<String>) -> bool {
    models.len() == texts.len() && forall|i: int|
        0 <= i < texts.len() ==> #[trigger] models[i] == texts[i]@
}

/// The model of a chunk holds each of its fields.
pub proof fn chunks_are_modelled_whole(c: RawChunk)
    ensures
        c@.id == c.id@,
        c@.file == c.file@,
        c@.start_line == c.start_line,
        c@.end_line == c.end_line,
        c@.content == c.content@,
        models_text(c@.function_name, c.function_name),
        models_text(c@.language, c.language),
        c@.chunk_type == c.chunk_type,
        models_texts(c@.calls, c.calls@),
        models_texts(c@.inherits_from, c.inherits_from@),
        c@.chunk_depth == c.chunk_depth,
        models_text(c@.parent_chunk_id, c.parent_chunk_id),
        models_texts(c@.child_chunk_ids, c.child_chunk_ids@),
        models_texts(c@.nlp_keywords, c.nlp_keywords@),
        models_texts(c@.nlp_code_refs, c.nlp_code_refs@),
        models_texts(c@.virtual_terms, c.virtual_terms@),
{
}

/// The model of a result holds each of its fields.
pub proof fn results_are_modelled_whole(c: CodeChunk)
    ensures
        c@.id == c.id@,
        c@.file == c.file@,
        models_text(c@.language, c.language),
        c@.start_line == c.start_line,
        c@.end_line == c.end_line,
        c@.content == c.content@,
        models_text(c@.function_name, c.function_name),
        c@.score == c.score,
        models_text(c@.compact_snippet, c.compact_snippet),
        c@.match_reason == c.match_reason@,
        c@.chunk_type == c.chunk_type,
        models_texts(c@.calls, c.calls@),
        models_texts(c@.inherits_from, c.inherits_from@),
        c@.chunk_depth == c.chunk_depth,
        models_text(c@.index_id, c.index_id),
{
}

/// The model of a pending file holds each of its fields.
pub proof fn pending_files_are_modelled_whole(p: PendingFile)
    ensures
        p@ == (PendingView { path: p.path@, content: p.content@, hash: p.hash@ }),
{
}

/// The model of a check keeps its verdict and its message.
pub proof fn checks_are_modelled_whole(c: CheckResult)
    ensures
        match c {
            CheckResult::Passed(s) => c@ == CheckView::Passed(s@),
            CheckResult::Warn(s) => c@ == CheckView::Warn(s@),
            CheckResult::Error(s) => c@ == CheckView::Error(s@),
        },
{
}

/// The model of what became of a file keeps what became of it and why.
pub proof fn statuses_are_modelled_whole(s: FileStatus, read: Option<Result<String, String>>)
    ensures
        match s {
            FileStatus::Created => s@ == StatusView::Created,
            FileStatus::Updated(b) => s@ == StatusView::Updated(b@),
            FileStatus::Skipped => s@ == StatusView::Skipped,
            FileStatus::Planned => s@ == StatusView::Planned,
            FileStatus::Failed(m) => s@ == StatusView::Failed(m@),
        },
        match read {
            None => read_view(read) is None,
            Some(Ok(t)) => read_view(read) == Some(Ok::<Seq<char>, Seq<char>>(t@)),
            Some(Err(e)) => read_view(read) == Some(Err::<Seq<char>, Seq<char>>(e@)),
        },
{
}

/// The model of what an event calls for keeps what that is.
pub proof fn actions_are_modelled_whole(a: ClientAction)
    ensures
        match a {
            ClientAction::Nothing => a@ is Nothing,
            ClientAction::Show => a@ is Show,
            ClientAction::Warn(s) => a@ == Reaction::Warn(s@),
            ClientAction::Over => a@ is Over,
        },
{
}

/// The models of lists hold the model of each item, in its place.
pub proof fn lists_are_modelled_item_by_item(
    vectors: Seq<(String, Vec<u32>)>,
    results: Seq<Result<Vec<u32>, String>>,
    embeddings: Seq<Option<Vec<u32>>>,
    entities: Seq<(String, Vec<RawEntity>)>,
    entries: Seq<(String, String)>,
    i: int,
)
    ensures
        vector_views(vectors).len() == vectors.len(),
        0 <= i < vectors.len() ==> vector_views(vectors)[i].0 == vectors[i].0@ && vector_views(
            vectors,
        )[i].1 == vectors[i].1@,
        vector_results(results).len() == results.len(),
        0 <= i < results.len() ==> (results[i] matches Ok(v) ==> vector_results(results)[i] == Ok::<
            Seq<u32>,
            Seq<char>,
        >(v@)),
        0 <= i < results.len() ==> (results[i] matches Err(e) ==> vector_results(results)[i]
            == Err::<Seq<u32>, Seq<char>>(e@)),
        embedding_views(embeddings).len() == embeddings.len(),
        0 <= i < embeddings.len() ==> (embeddings[i] matches Some(e) ==> embedding_views(
            embeddings,
        )[i] == Some(e@)),
        0 <= i < embeddings.len() ==> (embeddings[i] is None ==> embedding_views(embeddings)[i]
            is None),
        entity_views(entities).len() == entities.len(),
        0 <= i < entities.len() ==> entity_views(entities)[i].0 == entities[i].0@ && entity_views(
            entities,
        )[i].1 == entities[i].1@,
        entry_views(entries).len() == entries.len(),
        0 <= i < entries.len() ==> entry_views(entries)[i].0 == entries[i].0@ && entry_views(
            entries,
        )[i].1 == entries[i].1@,
{
}

/// The models of the lanes and of the answers hold each hit and each result, in its
/// place.
pub proof fn answers_are_modelled_item_by_item(
    lanes: Seq<Vec<(String, u32)>>,
    per_index: Seq<(String, Vec<CodeChunk>)>,
    a: int,
    i: int,
)
    ensures
        lane_views(lanes).len() == lanes.len(),
        0 <= a < lanes.len() && 0 <= i < lanes[a]@.len() ==> lane_views(lanes)[a].len()
            == lanes[a]@.len() && lane_views(lanes)[a][i].0 == lanes[a]@[i].0@ && lane_views(
            lanes,
        )[a][i].1 == lanes[a]@[i].1,
        answers(per_index).len() == per_index.len(),
        0 <= a < per_index.len() ==> answers(per_index)[a].0 == per_index[a].0@,
        0 <= a < per_index.len() && 0 <= i < per_index[a].1@.len() ==> answers(
            per_index,
        )[a].1.len() == per_index[a].1@.len() && answers(per_index)[a].1[i] == per_index[a].1@[i]@,
{
}

/// A new index holds nothing.
pub proof fn new_index_holds_nothing(k: Seq<char>)
    ensures
        !empty_index().corpus.contains_key(k),
        !empty_index().documents.contains_key(k),
        !empty_index().entities.contains_key(k),
        empty_index().embeddings.len() == 0,
        empty_index().queries.len() == 0,
{
}

/// Whatever is done to what an index holds, its name, its root, its limits and whether
/// an embedder is attached stay.
pub proof fn settings_stay(before: &CodeIndexer, after: &CodeIndexer)
    requires
        after.same_settings(before),
    ensures
        after.name() == before.name(),
        after.root() == before.root(),
        after.components() == before.components(),
        after.max_chunks() == before.max_chunks(),
        after.embedding_capacity() == before.embedding_capacity(),
{
}

/// Remembering an event changes no counter.
pub proof fn counters_stay(before: &ReindexProgress, after: &ReindexProgress)
    requires
        after.same_counters(before),
    ensures
        after.status == before.status,
        after.total_files == before.total_files,
        after.indexed == before.indexed,
        after.total_chunks == before.total_chunks,
        after.errors == before.errors,
        after.skipped == before.skipped,
{
}

/// Every file that was handed out is counted once: as done, as an error, as pending or
/// as not yet looked at; no more are skipped than are done.
pub proof fn every_file_is_counted_once(run: &ReindexRun, p: &ReindexProgress)
    requires
        run.accounts(p),
    ensures
        p.total_files == run.files().len(),
        p.indexed + p.errors + run.pending().len() + run.outstanding() == run.handed_out(),
        run.handed_out() <= run.files().len(),
        p.skipped <= p.indexed,
{
}

/// The hosted model is enabled exactly where there is a key.
pub proof fn hosted_model_needs_a_key(s: &SearchAppState)
    requires
        s.wf(),
    ensures
        s.openrouter_enabled <==> s.openrouter_api_key@.len() > 0,
{
}

/// A new handle names its index and root and restricts nothing.
pub proof fn bare_handles_restrict_nothing(h: IndexHandle, id: Seq<char>, root: Seq<char>)
    requires
        is_bare(h, id, root),
    ensures
        h.id@ == id,
        h.root_path@ == root,
        h.include_paths@.len() == 0,
        h.exclude_globs@.len() == 0,
        h.extensions@.len() == 0,
        h.domain_terms@.len() == 0,
{
}

/// A similarity search starts from a chunk that the request means: one of a file
/// whose path ends as asked, of the function where one is named, and none of these
/// starts earlier.
pub proof fn search_starts_from_the_first_chunk_meant(
    ix: &CodeIndexer,
    req: &SearchSimilarRequest,
    id: Seq<char>,
    other: Seq<char>,
    beginning: Seq<char>,
)
    requires
        is_first_wanted(ix, req, id),
        ix@.corpus.contains_key(other),
        ix@.corpus[other].file == beginning + req.file@,
        req.function matches Some(f) ==> ix@.corpus[other].function_name == Some(f@),
    ensures
        ix@.corpus.contains_key(id),
        ix@.corpus[id].file == ix@.corpus[id].file.take(ix@.corpus[id].file.len() - req.file@.len())
            + req.file@,
        req.function matches Some(f) ==> ix@.corpus[id].function_name == Some(f@),
        ix@.corpus[id].start_line <= ix@.corpus[other].start_line,
{
    let function = crate::text::opt_text(req.function);
    crate::laws::listing::chunks_are_found_by_path_and_function(
        ix@.corpus[other],
        beginning,
        req.file@,
        function,
    );
    crate::laws::listing::chunks_are_found_by_path_and_function(
        ix@.corpus[id],
        beginning,
        req.file@,
        function,
    );
}

} // verus!
