//! What the daemon answers.
use crate::engine::memguard::{memory_limit_spec, over_limit};
use crate::json::{bool_at, member, number_at, text_at, JsonTree};
use crate::paths::plain_path_spec;
use crate::service::events::{event_tree, timings_tree, ReindexEvent, ReindexTimings};
use crate::service::server::{capped_total, create_answer, moves_root, ReindexRequest};
use crate::service::sse::{frame_spec, replay_frames};
use crate::text::decimal;
use vstd::prelude::*;

verus! {

// ---------------------------------------------------------------------------
// Events
// ---------------------------------------------------------------------------

proof fn lemma_event_keys()
    ensures
        "event"@.len() == 5 && "event"@[0] == 'e',
        "force"@.len() == 5 && "force"@[0] == 'f' && "force"@[1] == 'o',
        "files"@.len() == 5 && "files"@[0] == 'f' && "files"@[1] == 'i',
        "file"@.len() == 4,
        "reason"@.len() == 6 && "reason"@[0] == 'r',
        "errors"@.len() == 6 && "errors"@[0] == 'e',
        "message"@.len() == 7 && "message"@[0] == 'm',
        "indexed"@.len() == 7 && "indexed"@[0] == 'i',
        "skipped"@.len() == 7 && "skipped"@[0] == 's',
        "timings"@.len() == 7 && "timings"@[0] == 't',
        "index_id"@.len() == 8,
        "root_path"@.len() == 9,
        "elapsed_ms"@.len() == 10 && "elapsed_ms"@[0] == 'e',
        "kg_skipped"@.len() == 10 && "kg_skipped"@[0] == 'k',
        "total_files"@.len() == 11 && "total_files"@[0] == 't',
        "batch_files"@.len() == 11 && "batch_files"@[0] == 'b',
        "peak_rss_mb"@.len() == 11 && "peak_rss_mb"@[0] == 'p',
        "total_chunks"@.len() == 12 && "total_chunks"@[0] == 't',
        "batch_chunks"@.len() == 12 && "batch_chunks"@[0] == 'b',
        "chunks_per_sec"@.len() == 14,
        "memory_limit_hit"@.len() == 16,
{
    reveal_strlit("event");
    reveal_strlit("force");
    reveal_strlit("files");
    reveal_strlit("file");
    reveal_strlit("reason");
    reveal_strlit("errors");
    reveal_strlit("message");
    reveal_strlit("indexed");
    reveal_strlit("skipped");
    reveal_strlit("timings");
    reveal_strlit("index_id");
    reveal_strlit("root_path");
    reveal_strlit("elapsed_ms");
    reveal_strlit("kg_skipped");
    reveal_strlit("total_files");
    reveal_strlit("batch_files");
    reveal_strlit("peak_rss_mb");
    reveal_strlit("total_chunks");
    reveal_strlit("batch_chunks");
    reveal_strlit("chunks_per_sec");
    reveal_strlit("memory_limit_hit");
}

/// Whether the value says of which kind the event is and all that the event says.
pub open spec fn says_all(v: JsonTree, e: ReindexEvent) -> bool {
    match e {
        ReindexEvent::Start { total_files, index_id, root_path, force } => {
            &&& text_at(v, "event"@) == Some("start"@)
            &&& number_at(v, "total_files"@) == total_files
            &&& text_at(v, "index_id"@) == Some(index_id@)
            &&& text_at(v, "root_path"@) == Some(root_path@)
            &&& bool_at(v, "force"@) == force
        },
        ReindexEvent::FileError { file, message, indexed, total_files } => {
            &&& text_at(v, "event"@) == Some("error"@)
            &&& text_at(v, "file"@) == Some(file@)
            &&& text_at(v, "message"@) == Some(message@)
            &&& number_at(v, "indexed"@) == indexed
            &&& number_at(v, "total_files"@) == total_files
        },
        ReindexEvent::Skip { file, minified, indexed, total_files } => {
            &&& text_at(v, "event"@) == Some("skip"@)
            &&& text_at(v, "file"@) == Some(file@)
            &&& number_at(v, "indexed"@) == indexed
            &&& number_at(v, "total_files"@) == total_files
            &&& minified ==> text_at(v, "reason"@) == Some("minified"@)
            &&& !minified ==> member(v, "reason"@) is None
        },
        ReindexEvent::Batch {
            batch_files,
            batch_chunks,
            indexed,
            total_files,
            elapsed_ms,
            chunks_per_sec,
        } => {
            &&& text_at(v, "event"@) == Some("batch"@)
            &&& number_at(v, "batch_files"@) == batch_files
            &&& number_at(v, "batch_chunks"@) == batch_chunks
            &&& number_at(v, "indexed"@) == indexed
            &&& number_at(v, "total_files"@) == total_files
            &&& number_at(v, "elapsed_ms"@) == elapsed_ms
            &&& number_at(v, "chunks_per_sec"@) == chunks_per_sec
        },
        ReindexEvent::BatchError { files, message, indexed, total_files } => {
            &&& text_at(v, "event"@) == Some("error"@)
            &&& text_at(v, "message"@) == Some(message@)
            &&& number_at(v, "indexed"@) == indexed
            &&& number_at(v, "total_files"@) == total_files
            &&& member(v, "files"@) matches Some(JsonTree::Array(items)) && items.len()
                == files@.len() && forall|i: int|
                0 <= i < items.len() ==> #[trigger] items[i] == JsonTree::Text(files@[i]@)
        },
        ReindexEvent::Complete { totals } => {
            &&& text_at(v, "event"@) == Some("complete"@)
            &&& number_at(v, "indexed"@) == totals.indexed
            &&& number_at(v, "total_chunks"@) == totals.total_chunks
            &&& number_at(v, "skipped"@) == totals.skipped
            &&& number_at(v, "errors"@) == totals.errors
            &&& number_at(v, "elapsed_ms"@) == totals.elapsed_ms
            &&& number_at(v, "chunks_per_sec"@) == totals.chunks_per_sec
            &&& number_at(v, "peak_rss_mb"@) == totals.peak_rss_mb
            &&& bool_at(v, "memory_limit_hit"@) == totals.memory_limit_hit
            &&& bool_at(v, "kg_skipped"@) == totals.kg_skipped
            &&& member(v, "timings"@) == Some(timings_tree(totals.timings))
        },
    }
}

/// Whoever reads the JSON of an event by its members finds all that it says.
#[verifier::rlimit(60)]
pub proof fn events_can_be_read_by_their_members(e: ReindexEvent)
    ensures
        says_all(event_tree(e@), e),
{
    lemma_event_keys();
    match e {
        ReindexEvent::BatchError { files, .. } => {
            let items = crate::service::events::text_list_tree(crate::text::texts(files@));
            assert(member(event_tree(e@), "files"@) == Some(items));
        },
        _ => {},
    }
}

/// Whoever reads the JSON of the stage timings by its members finds each of them.
pub proof fn timings_can_be_read_by_their_members(t: ReindexTimings)
    ensures
        number_at(timings_tree(t), "parse_ms"@) == t.parse_ms,
        number_at(timings_tree(t), "embed_ms"@) == t.embed_ms,
        number_at(timings_tree(t), "bm25_ms"@) == t.bm25_ms,
        number_at(timings_tree(t), "vector_upsert_ms"@) == t.vector_upsert_ms,
        number_at(timings_tree(t), "kg_ms"@) == t.kg_ms,
        number_at(timings_tree(t), "vector_count"@) == t.vector_count,
        number_at(timings_tree(t), "symbol_count"@) == t.symbol_count,
        number_at(timings_tree(t), "edge_count"@) == t.edge_count,
{
    reveal_strlit("parse_ms");
    reveal_strlit("embed_ms");
    reveal_strlit("bm25_ms");
    reveal_strlit("vector_upsert_ms");
    reveal_strlit("kg_ms");
    reveal_strlit("vector_count");
    reveal_strlit("symbol_count");
    reveal_strlit("edge_count");
    assert("parse_ms"@.len() == 8 && "parse_ms"@[0] == 'p');
    assert("embed_ms"@.len() == 8 && "embed_ms"@[0] == 'e');
    assert("bm25_ms"@.len() == 7 && "vector_upsert_ms"@.len() == 16 && "kg_ms"@.len() == 5);
    assert("vector_count"@.len() == 12 && "symbol_count"@.len() == 12 && "edge_count"@.len() == 10);
    assert("vector_count"@[0] == 'v' && "symbol_count"@[0] == 's');
}

// ---------------------------------------------------------------------------
// Frames
// ---------------------------------------------------------------------------

/// A frame is the line behind `data: `, and ends in an empty line.
pub proof fn frames_carry_their_line(line: Seq<char>)
    ensures
        frame_spec(line).len() == line.len() + 8,
        frame_spec(line).take(6) == seq!['d', 'a', 't', 'a', ':', ' '],
        frame_spec(line).subrange(6, 6 + line.len() as int) == line,
        frame_spec(line).skip(6 + line.len() as int) == seq!['\n', '\n'],
{
    reveal_strlit("data: ");
    reveal_strlit("\n\n");
    let f = frame_spec(line);
    assert("data: "@ =~= seq!['d', 'a', 't', 'a', ':', ' ']);
    assert("\n\n"@ =~= seq!['\n', '\n']);
    assert(f.take(6) =~= "data: "@);
    assert(f.subrange(6, 6 + line.len() as int) =~= line);
    assert(f.skip(6 + line.len() as int) =~= "\n\n"@);
}

/// A late subscriber is shown every remembered event, in order, each in a frame of
/// its own.
pub proof fn every_remembered_event_is_shown(
    events: Seq<crate::service::events::EventView>,
    i: int,
)
    requires
        0 <= i < events.len(),
    ensures
        replay_frames(events).len() == events.len(),
        replay_frames(events)[i] == frame_spec(crate::json::compact_text(event_tree(events[i]))),
{
}

// ---------------------------------------------------------------------------
// Indexes
// ---------------------------------------------------------------------------

/// The answer to a request for a new index names the index and says whether it is
/// new; where it is not, and only then, it says why.
pub proof fn answer_says_whether_the_index_is_new(id: Seq<char>, created: bool)
    ensures
        text_at(create_answer(id, created), "id"@) == Some(id),
        bool_at(create_answer(id, created), "created"@) == created,
        created ==> member(create_answer(id, created), "reason"@) is None,
        !created ==> text_at(create_answer(id, created), "reason"@) == Some("already exists"@),
{
    reveal_strlit("id");
    reveal_strlit("created");
    reveal_strlit("reason");
    assert("id"@.len() == 2 && "created"@.len() == 7 && "reason"@.len() == 6);
}

/// A request moves an index to another root exactly where it names one whose
/// components differ from those of the present one, or where there is none yet.
pub proof fn index_moves_to_another_root_only(current: Seq<char>, body: Option<ReindexRequest>)
    ensures
        body is None ==> !moves_root(current, body),
        body matches Some(req) ==> (req.root_path is None ==> !moves_root(current, body)),
        body matches Some(req) ==> (req.root_path matches Some(root) ==> (moves_root(current, body)
            <==> current.len() == 0 || plain_path_spec(current) != plain_path_spec(root@))),
{
    if let Some(req) = body {
        if let Some(root) = req.root_path {
            crate::paths::plain_paths_tell_paths_apart(current, root@);
        }
    }
}

/// The chunks of all indexes are the chunks of the first ones and of the others; an
/// index that is gone counts for none, and no total exceeds what can be held.
pub proof fn totals_add_up(a: Seq<Option<usize>>, b: Seq<Option<usize>>)
    ensures
        capped_total(a + b) == (if capped_total(a) + capped_total(b) > usize::MAX {
            usize::MAX as int
        } else {
            capped_total(a) + capped_total(b)
        }),
        0 <= capped_total(b) <= usize::MAX,
        0 <= capped_total(a) <= usize::MAX,
    decreases b.len(), a.len(),
{
    if b.len() == 0 {
        assert(a + b =~= a);
        if a.len() > 0 {
            totals_add_up(a.drop_last(), b);
        }
    } else {
        assert((a + b).drop_last() =~= a + b.drop_last());
        totals_add_up(a, b.drop_last());
    }
}

/// One index counts with the number of its chunks.
pub proof fn one_index_counts_its_chunks(n: usize)
    ensures
        capped_total(seq![Some(n)]) == n,
        capped_total(seq![None::<usize>]) == 0,
        capped_total(Seq::<Option<usize>>::empty()) == 0,
{
    reveal_with_fuel(capped_total, 2);
    assert(seq![Some(n)].last() == Some(n));
    assert(seq![None::<usize>].last() is None);
    assert(seq![Some(n)].drop_last() =~= Seq::<Option<usize>>::empty());
    assert(seq![None::<usize>].drop_last() =~= Seq::<Option<usize>>::empty());
}

// ---------------------------------------------------------------------------
// Memory
// ---------------------------------------------------------------------------

/// A positive number sets the limit; nothing, and zero, set none.
pub proof fn limit_is_the_number_it_spells(n: nat)
    requires
        0 < n <= u64::MAX,
    ensures
        memory_limit_spec(Some(decimal(n))) == Some(n as u64),
        memory_limit_spec(None) is None,
        memory_limit_spec(Some(decimal(0))) is None,
{
    crate::laws::text::numbers_are_read_as_they_are_written(n);
    crate::laws::text::numbers_are_read_as_they_are_written(0);
}

/// The limit is reached as soon as the reading is as large, and stays reached with
/// any larger one; without a limit or a reading it never is.
pub proof fn limit_is_reached_from_below(limit: u64, below: u64, above: u64)
    requires
        below < limit <= above,
    ensures
        !over_limit(Some(limit), Some(below)),
        over_limit(Some(limit), Some(above)),
        !over_limit(None, Some(above)),
        !over_limit(Some(limit), None),
{
}

} // verus!
