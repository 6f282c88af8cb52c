//! A reindex, from the list of files to the final report.
//!
//! The daemon reads files, embeds and commits chunks and samples memory; what is
//! read, what is indexed, what is skipped and what is reported is decided here.
//!
//! A run goes through these steps: [`ReindexRun::start`]; then, as long as
//! [`ReindexRun::next_batch`] hands out files, [`ReindexRun::classify`] with what
//! was read and, where files are pending, [`ReindexRun::record_batch`] with what
//! came of them; and [`ReindexRun::finish`].
use crate::engine::memguard::over_limit;
use crate::engine::registry::IndexHandle;
use crate::paths::{plain_path_spec, strip_prefix, strip_prefix_spec};
use crate::service::events::{
    event_views, EventView, ReindexEvent, ReindexTimings, ReindexTotals,
};
use crate::service::hash_cache::{cut_back, fingerprint, hash_content, HashCache};
use crate::service::memory::{larger, MemoryWatch};
use crate::service::runs::{looked_at, run_start, run_view, settled};
use crate::text::{concat, texts};
use vstd::prelude::*;

verus! {

/// Files per batch.
pub const REINDEX_BATCH_SIZE: usize = 128;

/// Events that a late subscriber can still be shown.
pub const MAX_REPLAY_EVENTS: usize = 500;

/// Seconds for which the progress of a finished reindex is kept.
pub const REINDEX_PROGRESS_TTL_SECS: u64 = 60;

/// Events that a live subscriber may lag behind.
pub const BROADCAST_CAPACITY: usize = 256;

// ---------------------------------------------------------------------------
// Progress
// ---------------------------------------------------------------------------

/// Where a reindex stands.
#[derive(Debug, Clone, Copy, PartialEq, Eq)]
pub enum ReindexStatus {
    Running,
    Complete,
    Failed,
}

/// The counters of a reindex and its latest events.
pub struct ReindexProgress {
    pub status: ReindexStatus,
    pub total_files: usize,
    /// Files done with: indexed or skipped.
    pub indexed: usize,
    pub total_chunks: usize,
    pub errors: usize,
    /// Files passed over because they are minified or unchanged.
    pub skipped: usize,
    /// The latest events, oldest first.
    pub events: Vec<ReindexEvent>,
}

/// The replay buffer `buffer` after one more event.
pub open spec fn replay_push(buffer: Seq<EventView>, e: EventView) -> Seq<EventView> {
    if buffer.len() >= MAX_REPLAY_EVENTS {
        buffer.skip(1).push(e)
    } else {
        buffer.push(e)
    }
}

/// The replay buffer `buffer` after the events `evs`, in order.
pub open spec fn replay_push_all(buffer: Seq<EventView>, evs: Seq<EventView>) -> Seq<EventView>
    decreases evs.len(),
{
    if evs.len() == 0 {
        buffer
    } else {
        replay_push(replay_push_all(buffer, evs.drop_last()), evs.last())
    }
}

/// Whatever was reported, the replay buffer holds the latest events, as many as
/// it may hold, in the order in which they were reported.
pub proof fn replay_holds_the_latest(evs: Seq<EventView>)
    ensures
        evs.len() <= MAX_REPLAY_EVENTS ==> replay_push_all(Seq::empty(), evs) == evs,
        evs.len() > MAX_REPLAY_EVENTS ==> replay_push_all(Seq::empty(), evs) == evs.skip(
            evs.len() - MAX_REPLAY_EVENTS,
        ),
    decreases evs.len(),
{
    if evs.len() > 0 {
        replay_holds_the_latest(evs.drop_last());
        let held = replay_push_all(Seq::empty(), evs.drop_last());
        if evs.len() <= MAX_REPLAY_EVENTS {
            assert(held.push(evs.last()) =~= evs);
        } else if evs.len() == MAX_REPLAY_EVENTS + 1 {
            assert(held.skip(1).push(evs.last()) =~= evs.skip(1));
        } else {
            assert(held.skip(1).push(evs.last()) =~= evs.skip(evs.len() - MAX_REPLAY_EVENTS));
        }
    } else {
        assert(evs =~= Seq::empty());
    }
}

impl ReindexProgress {
    /// Nothing is counted and nothing reported yet.
    pub fn new() -> (p: ReindexProgress)
        ensures
            p.status == ReindexStatus::Running,
            p.total_files == 0,
            p.indexed == 0,
            p.total_chunks == 0,
            p.errors == 0,
            p.skipped == 0,
            p.events@.len() == 0,
    {
        ReindexProgress {
            status: ReindexStatus::Running,
            total_files: 0,
            indexed: 0,
            total_chunks: 0,
            errors: 0,
            skipped: 0,
            events: Vec::new(),
        }
    }

    /// Whether the counters of the two are the same.
    pub open spec fn same_counters(&self, other: &ReindexProgress) -> bool {
        &&& self.status == other.status
        &&& self.total_files == other.total_files
        &&& self.indexed == other.indexed
        &&& self.total_chunks == other.total_chunks
        &&& self.errors == other.errors
        &&& self.skipped == other.skipped
    }

    /// Remembers an event for late subscribers; where the buffer is full the
    /// oldest one is dropped.
    pub fn push(&mut self, event: ReindexEvent)
        ensures
            event_views(final(self).events@) == replay_push(event_views(old(self).events@), event@),
            final(self).same_counters(old(self)),
            old(self).events@.len() <= MAX_REPLAY_EVENTS ==> final(self).events@.len()
                <= MAX_REPLAY_EVENTS,
    {
        let ghost before = event_views(self.events@);
        if self.events.len() >= MAX_REPLAY_EVENTS {
            self.events.remove(0);
            assert(event_views(self.events@) =~= before.skip(1));
        }
        let ghost kept = event_views(self.events@);
        self.events.push(event);
        assert(event_views(self.events@) =~= kept.push(event@));
    }
}

// ---------------------------------------------------------------------------
// One batch
// ---------------------------------------------------------------------------

/// What reading one file gave.
pub struct FileRead {
    pub path: String,
    /// The content, or the message of the read error.
    pub content: Result<String, String>,
    /// Whether the content looks minified.
    pub minified: bool,
}

/// A file that is to be indexed.
pub struct PendingFile {
    pub path: String,
    pub content: String,
    /// The fingerprint of the content.
    pub hash: String,
}

/// What a pending file holds.
#[verifier::ext_equal]
pub struct PendingView {
    pub path: Seq<char>,
    pub content: Seq<char>,
    pub hash: Seq<char>,
}

impl View for PendingFile {
    type V = PendingView;

    open spec fn view(&self) -> PendingView {
        PendingView { path: self.path@, content: self.content@, hash: self.hash@ }
    }
}

/// What each pending file of a list holds.
pub open spec fn pending_views(v: Seq<PendingFile>) -> Seq<PendingView> {
    v.map_values(|p: PendingFile| p@)
}

/// The path as it is reported: relative to the root where it lies below it.
pub open spec fn shown_path(path: Seq<char>, root: Seq<char>) -> Seq<char> {
    match strip_prefix_spec(path, root) {
        Some(rest) => rest,
        None => path,
    }
}

fn show_path(path: &str, root: &str) -> (s: String)
    ensures
        s@ == shown_path(path@, root@),
{
    match strip_prefix(path, root) {
        Some(rest) => rest,
        None => path.to_owned(),
    }
}

/// The counters, reports and pending files while the files of a batch are looked
/// at one by one.
#[verifier::ext_equal]
pub struct Tally {
    pub errors: int,
    pub skipped: int,
    pub indexed: int,
    pub events: Seq<EventView>,
    pub pending: Seq<PendingView>,
}

/// Whether the file is known with this very content.
pub open spec fn unchanged(
    path: Seq<char>,
    content: Seq<char>,
    hashes: Map<Seq<char>, Seq<char>>,
) -> bool {
    hashes.contains_key(plain_path_spec(path)) && hashes[plain_path_spec(path)] == fingerprint(
        content,
    )
}

/// The tally after one more file: an unreadable one is an error, a minified or
/// unchanged one is skipped, any other is pending.
pub open spec fn tally_file(
    t: Tally,
    read: FileRead,
    root: Seq<char>,
    hashes: Map<Seq<char>, Seq<char>>,
    total: usize,
) -> Tally {
    let file = shown_path(read.path@, root);
    match read.content {
        Err(e) => Tally {
            errors: t.errors + 1,
            events: t.events.push(
                EventView::FileError {
                    file,
                    message: "read: "@ + e@,
                    indexed: t.indexed as usize,
                    total_files: total,
                },
            ),
            ..t
        },
        Ok(content) => if read.minified || unchanged(read.path@, content@, hashes) {
            Tally {
                skipped: t.skipped + 1,
                indexed: t.indexed + 1,
                events: t.events.push(
                    EventView::Skip {
                        file,
                        minified: read.minified,
                        indexed: (t.indexed + 1) as usize,
                        total_files: total,
                    },
                ),
                ..t
            }
        } else {
            Tally {
                pending: t.pending.push(
                    PendingView {
                        path: read.path@,
                        content: content@,
                        hash: fingerprint(content@),
                    },
                ),
                ..t
            }
        },
    }
}

/// The tally after the files `reads`, in order.
pub open spec fn tally_files(
    t: Tally,
    reads: Seq<FileRead>,
    root: Seq<char>,
    hashes: Map<Seq<char>, Seq<char>>,
    total: usize,
) -> Tally
    decreases reads.len(),
{
    if reads.len() == 0 {
        t
    } else {
        tally_file(
            tally_files(t, reads.drop_last(), root, hashes, total),
            reads.last(),
            root,
            hashes,
            total,
        )
    }
}

pub(crate) proof fn lemma_tally_counts(
    t: Tally,
    reads: Seq<FileRead>,
    root: Seq<char>,
    hashes: Map<Seq<char>, Seq<char>>,
    total: usize,
)
    ensures
        ({
            let r = tally_files(t, reads, root, hashes, total);
            &&& r.errors + r.indexed + r.pending.len() == t.errors + t.indexed + t.pending.len()
                + reads.len()
            &&& r.errors >= t.errors && r.indexed >= t.indexed && r.skipped >= t.skipped
            &&& r.skipped - t.skipped == r.indexed - t.indexed
        }),
    decreases reads.len(),
{
    if reads.len() > 0 {
        lemma_tally_counts(t, reads.drop_last(), root, hashes, total);
    }
}

/// The cache after the fingerprints of the pending files were recorded.
pub open spec fn with_pending(
    hashes: Map<Seq<char>, Seq<char>>,
    pending: Seq<PendingView>,
) -> Map<Seq<char>, Seq<char>>
    decreases pending.len(),
{
    if pending.len() == 0 {
        hashes
    } else {
        with_pending(hashes, pending.drop_last()).insert(
            plain_path_spec(pending.last().path),
            pending.last().hash,
        )
    }
}

/// What parsing, embedding and committing a batch gave.
#[derive(Debug, Clone, Copy, PartialEq, Eq)]
pub struct BatchOutcome {
    pub parse_ms: u64,
    pub embed_ms: u64,
    pub vector_count: usize,
    pub chunks: usize,
    pub bm25_ms: u64,
    pub vector_upsert_ms: u64,
}

/// The sum, or the largest number where the sum is larger.
pub open spec fn capped_sum(a: int, b: int, max: int) -> int {
    if a + b > max {
        max
    } else {
        a + b
    }
}

/// The stage timings after one more batch.
pub open spec fn timings_with(t: ReindexTimings, o: BatchOutcome) -> ReindexTimings {
    ReindexTimings {
        parse_ms: capped_sum(t.parse_ms as int, o.parse_ms as int, u64::MAX as int) as u64,
        embed_ms: capped_sum(t.embed_ms as int, o.embed_ms as int, u64::MAX as int) as u64,
        bm25_ms: capped_sum(t.bm25_ms as int, o.bm25_ms as int, u64::MAX as int) as u64,
        vector_upsert_ms: capped_sum(
            t.vector_upsert_ms as int,
            o.vector_upsert_ms as int,
            u64::MAX as int,
        ) as u64,
        vector_count: capped_sum(
            t.vector_count as int,
            o.vector_count as int,
            usize::MAX as int,
        ) as usize,
        ..t
    }
}

/// Chunks per second, zero where no time has passed.
pub open spec fn rate(chunks: usize, elapsed_ms: u64) -> u64 {
    if elapsed_ms == 0 {
        0
    } else {
        ((chunks * 1000) / (elapsed_ms as int)) as u64
    }
}

/// Chunks per second, zero where no time has passed.
pub fn chunks_per_sec(chunks: usize, elapsed_ms: u64) -> (r: u64)
    requires
        chunks * 1000 <= u64::MAX,
    ensures
        r == rate(chunks, elapsed_ms),
{
    let n: u64 = (chunks as u64) * 1000;
    if elapsed_ms == 0 {
        0
    } else {
        n / elapsed_ms
    }
}

// ---------------------------------------------------------------------------
// The run
// ---------------------------------------------------------------------------

/// A reindex in progress.
pub struct ReindexRun {
    root: String,
    files: Vec<String>,
    /// Files handed out so far.
    at: usize,
    /// Files handed out and not yet classified.
    outstanding: usize,
    pending: Vec<PendingFile>,
    timings: ReindexTimings,
}

impl ReindexRun {
    /// The directory that paths are reported relative to.
    pub closed spec fn root(&self) -> Seq<char> {
        self.root@
    }

    /// All files of the run, in order.
    pub closed spec fn files(&self) -> Seq<Seq<char>> {
        texts(self.files@)
    }

    /// How many files were handed out.
    pub closed spec fn handed_out(&self) -> nat {
        self.at as nat
    }

    /// How many files were handed out and not yet classified.
    pub closed spec fn outstanding(&self) -> nat {
        self.outstanding as nat
    }

    /// The files that wait to be indexed.
    pub closed spec fn pending(&self) -> Seq<PendingView> {
        pending_views(self.pending@)
    }

    /// The stage timings so far.
    pub closed spec fn timings(&self) -> ReindexTimings {
        self.timings
    }

    /// Whether run and counters fit: every file handed out is indexed, skipped,
    /// an error, pending or not yet classified, and counted as exactly one of
    /// these.
    pub open spec fn accounts(&self, p: &ReindexProgress) -> bool {
        &&& p.total_files == self.files().len()
        &&& p.indexed + p.errors + self.pending().len() + self.outstanding() == self.handed_out()
        &&& self.handed_out() <= self.files().len()
        &&& p.skipped <= p.indexed
    }

    /// Begins a reindex of `files`. With `force` every fingerprint is forgotten,
    /// so that no file counts as unchanged.
    pub fn start(
        handle: &IndexHandle,
        force: bool,
        files: Vec<String>,
        hashes: &mut HashCache,
        progress: &mut ReindexProgress,
    ) -> (r: (ReindexRun, ReindexEvent))
        requires
            old(progress).indexed == 0,
            old(progress).errors == 0,
            old(progress).skipped == 0,
        ensures
            r.0.root() == handle.root_path@,
            r.0.files() == texts(files@),
            r.0.handed_out() == 0,
            r.0.outstanding() == 0,
            r.0.pending() == Seq::<PendingView>::empty(),
            r.0.timings() == no_timings(),
            r.0.accounts(final(progress)),
            r.1@ == (EventView::Start {
                total_files: files@.len() as usize,
                index_id: handle.id@,
                root_path: handle.root_path@,
                force,
            }),
            final(hashes)@ == (if force {
                Map::<Seq<char>, Seq<char>>::empty()
            } else {
                old(hashes)@
            }),
            *final(progress) == (ReindexProgress {
                total_files: files@.len() as usize,
                ..*old(progress)
            }),
            old(progress).total_chunks == 0 ==> run_view(*final(progress), final(hashes)@)
                == run_start(final(hashes)@),
    {
        progress.total_files = files.len();
        if force {
            hashes.clear();
        }
        let event = ReindexEvent::Start {
            total_files: files.len(),
            index_id: handle.id.0.clone(),
            root_path: handle.root_path.clone(),
            force,
        };
        let run = ReindexRun {
            root: handle.root_path.clone(),
            files,
            at: 0,
            outstanding: 0,
            pending: Vec::new(),
            timings: ReindexTimings {
                parse_ms: 0,
                embed_ms: 0,
                bm25_ms: 0,
                vector_upsert_ms: 0,
                kg_ms: 0,
                vector_count: 0,
                symbol_count: 0,
                edge_count: 0,
            },
        };
        assert(run.pending() =~= Seq::<PendingView>::empty());
        (run, event)
    }

    /// The next files to read: at most a batch of them. Nothing where no file is
    /// left, or where the memory limit calls for an end, which is then noted.
    pub fn next_batch(&mut self, memory: &mut MemoryWatch) -> (r: Option<Vec<String>>)
        requires
            old(self).outstanding() == 0,
            old(self).pending().len() == 0,
            old(self).handed_out() <= old(self).files().len(),
        ensures
            r is Some == (old(self).handed_out() < old(self).files().len() && !old(memory).abort),
            *final(memory) == (MemoryWatch {
                hit: old(memory).hit || (old(memory).abort && old(self).handed_out() < old(self).files().len()),
                ..*old(memory)
            }),
            r is None ==> *final(self) == *old(self),
            r is Some ==> ({
                let from = old(self).handed_out() as int;
                let to = final(self).handed_out() as int;
                &&& to == (if from + REINDEX_BATCH_SIZE < old(self).files().len() {
                    from + REINDEX_BATCH_SIZE
                } else {
                    old(self).files().len() as int
                })
                &&& texts(r->0@) == old(self).files().subrange(from, to)
                &&& final(self).outstanding() == to - from
                &&& final(self).files() == old(self).files()
                &&& final(self).pending() == old(self).pending()
                &&& final(self).root() == old(self).root()
                &&& final(self).timings() == old(self).timings()
            }),
            forall|p: ReindexProgress| #[trigger]
                old(self).accounts(&p) ==> final(self).accounts(&p),
    {
        if self.at >= self.files.len() {
            return None;
        }
        if memory.abort {
            memory.hit = true;
            return None;
        }
        let left: usize = self.files.len() - self.at;
        let count: usize = if left > REINDEX_BATCH_SIZE {
            REINDEX_BATCH_SIZE
        } else {
            left
        };
        let mut batch: Vec<String> = Vec::new();
        for i in 0..count
            invariant
                count <= self.files.len() - self.at,
                self.files@ == old(self).files@,
                self.at == old(self).at,
                batch.len() == i,
                forall|j: int| 0 <= j < i ==> (#[trigger] batch@[j])@ == self.files@[self.at + j]@,
        {
            batch.push(self.files[self.at + i].clone());
        }
        assert(texts(batch@) =~= texts(self.files@).subrange(self.at as int, self.at + count));
        self.at = self.at + count;
        self.outstanding = count;
        Some(batch)
    }

    /// Looks at the files that were read: counts and reports the unreadable and
    /// the skipped ones, keeps the others pending and hands out their paths and
    /// contents.
    pub fn classify(
        &mut self,
        reads: &Vec<FileRead>,
        hashes: &HashCache,
        progress: &mut ReindexProgress,
    ) -> (r: (Vec<(String, String)>, Vec<ReindexEvent>))
        requires
            old(self).accounts(old(progress)),
            old(self).outstanding() == reads@.len(),
            old(self).pending().len() == 0,
        ensures
            final(self).accounts(final(progress)),
            final(self).outstanding() == 0,
            final(self).files() == old(self).files(),
            final(self).handed_out() == old(self).handed_out(),
            final(self).root() == old(self).root(),
            final(self).timings() == old(self).timings(),
            ({
                let t = tally_files(
                    Tally {
                        errors: old(progress).errors as int,
                        skipped: old(progress).skipped as int,
                        indexed: old(progress).indexed as int,
                        events: Seq::empty(),
                        pending: Seq::empty(),
                    },
                    reads@,
                    old(self).root(),
                    hashes@,
                    old(progress).total_files,
                );
                &&& final(self).pending() == t.pending
                &&& event_views(r.1@) == t.events
                &&& *final(progress) == (ReindexProgress {
                    errors: t.errors as usize,
                    skipped: t.skipped as usize,
                    indexed: t.indexed as usize,
                    ..*old(progress)
                })
            }),
            (run_view(*final(progress), hashes@), final(self).pending()) == looked_at(
                run_view(*old(progress), hashes@),
                reads@,
                old(self).root(),
                old(progress).total_files,
            ),
            r.0@.len() == final(self).pending().len(),
            forall|i: int|
                0 <= i < r.0@.len() ==> (#[trigger] r.0@[i]).0@ == final(self).pending()[i].path
                    && r.0@[i].1@ == final(self).pending()[i].content,
    {
        let mut to_index: Vec<(String, String)> = Vec::new();
        let mut events: Vec<ReindexEvent> = Vec::new();
        let mut pending: Vec<PendingFile> = Vec::new();
        let mut errors: usize = progress.errors;
        let mut skipped: usize = progress.skipped;
        let mut indexed: usize = progress.indexed;
        let total: usize = progress.total_files;
        let ghost t0 = Tally {
            errors: progress.errors as int,
            skipped: progress.skipped as int,
            indexed: progress.indexed as int,
            events: Seq::empty(),
            pending: Seq::empty(),
        };
        let ghost root = self.root@;
        assert(reads@.take(0) =~= Seq::empty());
        assert(event_views(events@) =~= Seq::empty());
        assert(pending_views(pending@) =~= Seq::empty());
        proof {
            lemma_tally_counts(t0, reads@, root, hashes@, total);
        }
        for i in 0..reads.len()
            invariant
                root == self.root@,
                *self == *old(self),
                t0.errors + t0.indexed + t0.pending.len() + reads.len() <= usize::MAX,
                t0.skipped <= t0.indexed,
                ({
                    let t = tally_files(t0, reads@.take(i as int), root, hashes@, total);
                    &&& t.errors == errors
                    &&& t.skipped == skipped
                    &&& t.indexed == indexed
                    &&& t.events == event_views(events@)
                    &&& t.pending == pending_views(pending@)
                }),
                to_index.len() == pending.len(),
                forall|j: int|
                    0 <= j < to_index.len() ==> (#[trigger] to_index@[j]).0@ == pending@[j].path@
                        && to_index@[j].1@ == pending@[j].content@,
        {
            proof {
                lemma_tally_counts(t0, reads@.take(i as int), root, hashes@, total);
                assert(reads@.take(i + 1).drop_last() =~= reads@.take(i as int));
                assert(reads@.take(i + 1).last() == reads@[i as int]);
            }
            let read = &reads[i];
            let file = show_path(read.path.as_str(), self.root.as_str());
            let ghost evs = event_views(events@);
            let ghost pen = pending_views(pending@);
            match &read.content {
                Err(e) => {
                    errors = errors + 1;
                    let message = concat("read: ", e.as_str());
                    let event = ReindexEvent::FileError { file, message, indexed, total_files: total };
                    events.push(event);
                    assert(event_views(events@) =~= evs.push(event@));
                },
                Ok(content) => {
                    let hash = hash_content(content.as_str());
                    if read.minified || hashes.matches(read.path.as_str(), hash.as_str()) {
                        skipped = skipped + 1;
                        indexed = indexed + 1;
                        let event = ReindexEvent::Skip {
                            file,
                            minified: read.minified,
                            indexed,
                            total_files: total,
                        };
                        events.push(event);
                        assert(event_views(events@) =~= evs.push(event@));
                    } else {
                        to_index.push((read.path.clone(), content.clone()));
                        let p = PendingFile {
                            path: read.path.clone(),
                            content: content.clone(),
                            hash,
                        };
                        pending.push(p);
                        assert(pending_views(pending@) =~= pen.push(p@));
                    }
                },
            }
        }
        assert(reads@.take(reads@.len() as int) =~= reads@);
        progress.errors = errors;
        progress.skipped = skipped;
        progress.indexed = indexed;
        self.outstanding = 0;
        self.pending = pending;
        (to_index, events)
    }

    /// Takes note of what came of the pending files. A batch that was indexed
    /// counts its files and chunks, and the fingerprints of its files are
    /// remembered; of one that failed every file is an error.
    pub fn record_batch(
        &mut self,
        outcome: Result<BatchOutcome, String>,
        elapsed_ms: u64,
        rss: Option<u64>,
        memory: &mut MemoryWatch,
        hashes: &mut HashCache,
        progress: &mut ReindexProgress,
    ) -> (event: ReindexEvent)
        requires
            old(self).accounts(old(progress)),
            old(self).outstanding() == 0,
            outcome matches Ok(o) ==> (old(progress).total_chunks + o.chunks) * 1000 <= u64::MAX
                && old(progress).total_chunks + o.chunks <= usize::MAX,
        ensures
            final(self).accounts(final(progress)),
            final(self).outstanding() == 0,
            final(self).pending().len() == 0,
            final(self).files() == old(self).files(),
            final(self).handed_out() == old(self).handed_out(),
            final(self).root() == old(self).root(),
            settled(
                run_view(*old(progress), old(hashes)@),
                old(self).pending(),
                outcome,
                run_view(*final(progress), final(hashes)@),
            ),
            match outcome {
                Ok(o) => {
                    let files = old(self).pending().len();
                    let chunks = (old(progress).total_chunks + o.chunks) as usize;
                    &&& final(self).timings() == timings_with(old(self).timings(), o)
                    &&& *final(progress) == (ReindexProgress {
                        indexed: (old(progress).indexed + files) as usize,
                        total_chunks: chunks,
                        ..*old(progress)
                    })
                    &&& cut_back(with_pending(old(hashes)@, old(self).pending()), final(hashes)@)
                    &&& event@ == (EventView::Batch {
                        batch_files: files as usize,
                        batch_chunks: o.chunks,
                        indexed: (old(progress).indexed + files) as usize,
                        total_files: old(progress).total_files,
                        elapsed_ms,
                        chunks_per_sec: rate(chunks, elapsed_ms),
                    })
                    &&& old(memory).limit is None ==> *final(memory) == *old(memory)
                    &&& old(memory).limit is Some ==> *final(memory) == (MemoryWatch {
                        peak_rss_mb: (match rss {
                            Some(r) => larger(old(memory).peak_rss_mb, r),
                            None => old(memory).peak_rss_mb,
                        }),
                        abort: old(memory).abort || over_limit(old(memory).limit, rss),
                        hit: old(memory).hit || over_limit(old(memory).limit, rss),
                        ..*old(memory)
                    })
                },
                Err(e) => {
                    let files = old(self).pending();
                    &&& final(self).timings() == old(self).timings()
                    &&& *final(progress) == (ReindexProgress {
                        errors: (old(progress).errors + files.len()) as usize,
                        ..*old(progress)
                    })
                    &&& final(hashes)@ == old(hashes)@
                    &&& *final(memory) == *old(memory)
                    &&& event@ == (EventView::BatchError {
                        files: files.map_values(|p: PendingView| shown_path(p.path, old(self).root())),
                        message: "batch index: "@ + e@,
                        indexed: old(progress).indexed,
                        total_files: old(progress).total_files,
                    })
                },
            },
    {
        let mut pending: Vec<PendingFile> = Vec::new();
        std::mem::swap(&mut pending, &mut self.pending);
        assert(pending_views(self.pending@) =~= Seq::<PendingView>::empty());
        match outcome {
            Ok(o) => {
                let t = self.timings;
                self.timings = ReindexTimings {
                    parse_ms: t.parse_ms.saturating_add(o.parse_ms),
                    embed_ms: t.embed_ms.saturating_add(o.embed_ms),
                    bm25_ms: t.bm25_ms.saturating_add(o.bm25_ms),
                    vector_upsert_ms: t.vector_upsert_ms.saturating_add(o.vector_upsert_ms),
                    kg_ms: t.kg_ms,
                    vector_count: t.vector_count.saturating_add(o.vector_count),
                    symbol_count: t.symbol_count,
                    edge_count: t.edge_count,
                };
                progress.total_chunks = progress.total_chunks + o.chunks;
                progress.indexed = progress.indexed + pending.len();
                remember_pending(&pending, hashes);
                hashes.shrink_if_needed();
                memory.after_commit(rss);
                ReindexEvent::Batch {
                    batch_files: pending.len(),
                    batch_chunks: o.chunks,
                    indexed: progress.indexed,
                    total_files: progress.total_files,
                    elapsed_ms,
                    chunks_per_sec: chunks_per_sec(progress.total_chunks, elapsed_ms),
                }
            },
            Err(e) => {
                let files = shown_paths(&pending, self.root.as_str());
                progress.errors = progress.errors + pending.len();
                ReindexEvent::BatchError {
                    files,
                    message: concat("batch index: ", e.as_str()),
                    indexed: progress.indexed,
                    total_files: progress.total_files,
                }
            },
        }
    }

    /// Ends the reindex: the status becomes complete and the totals are
    /// reported.
    pub fn finish(
        &mut self,
        symbol_count: usize,
        edge_count: usize,
        kg_ms: u64,
        elapsed_ms: u64,
        rss: Option<u64>,
        memory: &mut MemoryWatch,
        progress: &mut ReindexProgress,
    ) -> (event: ReindexEvent)
        requires
            old(progress).total_chunks * 1000 <= u64::MAX,
        ensures
            *final(progress) == (ReindexProgress {
                status: ReindexStatus::Complete,
                ..*old(progress)
            }),
            *final(memory) == (MemoryWatch {
                peak_rss_mb: (match rss {
                    Some(r) => larger(old(memory).peak_rss_mb, r),
                    None => old(memory).peak_rss_mb,
                }),
                ..*old(memory)
            }),
            final(self).timings() == (ReindexTimings {
                kg_ms,
                symbol_count,
                edge_count,
                ..old(self).timings()
            }),
            final(self).root() == old(self).root(),
            final(self).files() == old(self).files(),
            final(self).handed_out() == old(self).handed_out(),
            final(self).outstanding() == old(self).outstanding(),
            final(self).pending() == old(self).pending(),
            event@ == (EventView::Complete {
                totals: ReindexTotals {
                    indexed: old(progress).indexed,
                    total_chunks: old(progress).total_chunks,
                    skipped: old(progress).skipped,
                    errors: old(progress).errors,
                    elapsed_ms,
                    chunks_per_sec: rate(old(progress).total_chunks, elapsed_ms),
                    peak_rss_mb: final(memory).peak_rss_mb,
                    memory_limit_hit: old(memory).hit,
                    kg_skipped: false,
                    timings: final(self).timings(),
                },
            }),
    {
        memory.observe(rss);
        progress.status = ReindexStatus::Complete;
        self.timings.kg_ms = kg_ms;
        self.timings.symbol_count = symbol_count;
        self.timings.edge_count = edge_count;
        ReindexEvent::Complete {
            totals: ReindexTotals {
                indexed: progress.indexed,
                total_chunks: progress.total_chunks,
                skipped: progress.skipped,
                errors: progress.errors,
                elapsed_ms,
                chunks_per_sec: chunks_per_sec(progress.total_chunks, elapsed_ms),
                peak_rss_mb: memory.peak_rss_mb,
                memory_limit_hit: memory.hit,
                kg_skipped: false,
                timings: self.timings,
            },
        }
    }
}

/// No time spent and nothing counted.
pub open spec fn no_timings() -> ReindexTimings {
    ReindexTimings {
        parse_ms: 0,
        embed_ms: 0,
        bm25_ms: 0,
        vector_upsert_ms: 0,
        kg_ms: 0,
        vector_count: 0,
        symbol_count: 0,
        edge_count: 0,
    }
}

fn remember_pending(pending: &Vec<PendingFile>, hashes: &mut HashCache)
    ensures
        final(hashes)@ == with_pending(old(hashes)@, pending_views(pending@)),
{
    let ghost start = hashes@;
    let ghost all = pending_views(pending@);
    assert(all.take(0) =~= Seq::empty());
    for i in 0..pending.len()
        invariant
            all == pending_views(pending@),
            hashes@ == with_pending(start, all.take(i as int)),
    {
        assert(all.take(i + 1).drop_last() =~= all.take(i as int));
        assert(all.take(i + 1).last() == pending@[i as int]@);
        hashes.insert(pending[i].path.as_str(), pending[i].hash.clone());
    }
    assert(all.take(all.len() as int) =~= all);
}

fn shown_paths(pending: &Vec<PendingFile>, root: &str) -> (files: Vec<String>)
    ensures
        texts(files@) == pending_views(pending@).map_values(
            |p: PendingView| shown_path(p.path, root@),
        ),
{
    let mut files: Vec<String> = Vec::new();
    for i in 0..pending.len()
        invariant
            files.len() == i,
            forall|j: int|
                0 <= j < i ==> (#[trigger] files@[j])@ == shown_path(pending@[j].path@, root@),
    {
        files.push(show_path(pending[i].path.as_str(), root));
    }
    assert(texts(files@) =~= pending_views(pending@).map_values(
        |p: PendingView| shown_path(p.path, root@),
    ));
    files
}

// ---------------------------------------------------------------------------
// Laws
// ---------------------------------------------------------------------------

/// A reindex that was not cut short counts every file of the walk exactly once,
/// as done with or as an error.
pub proof fn every_file_is_accounted_for(run: &ReindexRun, p: &ReindexProgress)
    requires
        run.accounts(p),
        run.handed_out() == run.files().len(),
        run.outstanding() == 0,
        run.pending().len() == 0,
    ensures
        p.indexed + p.errors == p.total_files,
{
}

/// Whether the fingerprint of every file that can be read and is not minified is
/// known.
pub open spec fn all_known(reads: Seq<FileRead>, hashes: Map<Seq<char>, Seq<char>>) -> bool {
    forall|i: int|
        0 <= i < reads.len() && (#[trigger] reads[i]).content is Ok && !reads[i].minified
            ==> unchanged(reads[i].path@, reads[i].content->Ok_0@, hashes)
}

/// Where every fingerprint is known and still holds, nothing is indexed again.
pub proof fn unchanged_files_are_not_indexed_again(
    t: Tally,
    reads: Seq<FileRead>,
    root: Seq<char>,
    hashes: Map<Seq<char>, Seq<char>>,
    total: usize,
)
    requires
        all_known(reads, hashes),
    ensures
        tally_files(t, reads, root, hashes, total).pending == t.pending,
    decreases reads.len(),
{
    if reads.len() > 0 {
        let head = reads.drop_last();
        assert forall|i: int|
            0 <= i < head.len() && (#[trigger] head[i]).content is Ok && !head[i].minified implies unchanged(
        head[i].path@, head[i].content->Ok_0@, hashes) by {
            assert(head[i] == reads[i]);
        }
        unchanged_files_are_not_indexed_again(t, head, root, hashes, total);
        assert(reads.last() == reads[reads.len() - 1]);
    }
}

/// The files that can be read and are not minified, with their fingerprints.
pub open spec fn indexable(reads: Seq<FileRead>) -> Seq<PendingView>
    decreases reads.len(),
{
    if reads.len() == 0 {
        Seq::empty()
    } else {
        let rest = indexable(reads.drop_last());
        let last = reads.last();
        match last.content {
            Ok(content) => if last.minified {
                rest
            } else {
                rest.push(
                    PendingView {
                        path: last.path@,
                        content: content@,
                        hash: fingerprint(content@),
                    },
                )
            },
            Err(_) => rest,
        }
    }
}

/// After a forced start no fingerprint is known, and every file that can be read
/// and is not minified is indexed.
pub proof fn forced_reindex_skips_nothing(
    t: Tally,
    reads: Seq<FileRead>,
    root: Seq<char>,
    total: usize,
)
    ensures
        tally_files(t, reads, root, Map::empty(), total).pending == t.pending + indexable(reads),
    decreases reads.len(),
{
    if reads.len() > 0 {
        forced_reindex_skips_nothing(t, reads.drop_last(), root, total);
    }
    assert(tally_files(t, reads, root, Map::empty(), total).pending =~= t.pending + indexable(
        reads,
    ));
}

/// Whether no two pending files have the same path.
pub open spec fn distinct_pending(pending: Seq<PendingView>) -> bool {
    forall|a: int, b: int|
        0 <= a < b < pending.len() ==> plain_path_spec((#[trigger] pending[a]).path)
            != plain_path_spec((#[trigger] pending[b]).path)
}

proof fn lemma_with_pending_keeps(
    hashes: Map<Seq<char>, Seq<char>>,
    pending: Seq<PendingView>,
    i: int,
)
    requires
        0 <= i < pending.len(),
        distinct_pending(pending),
    ensures
        with_pending(hashes, pending).contains_key(plain_path_spec(pending[i].path)),
        with_pending(hashes, pending)[plain_path_spec(pending[i].path)] == pending[i].hash,
    decreases pending.len(),
{
    if i < pending.len() - 1 {
        let head = pending.drop_last();
        assert forall|a: int, b: int| 0 <= a < b < head.len() implies plain_path_spec(
            (#[trigger] head[a]).path,
        ) != plain_path_spec((#[trigger] head[b]).path) by {
            assert(head[a] == pending[a] && head[b] == pending[b]);
        }
        lemma_with_pending_keeps(hashes, head, i);
        assert(head[i] == pending[i]);
        let last = pending[pending.len() - 1];
        assert(plain_path_spec(pending[i].path) != plain_path_spec(last.path));
    }
}

/// Once a batch was committed, its files count as unchanged until they change
/// or the cache is cut back.
pub proof fn committed_files_are_unchanged(
    before: Map<Seq<char>, Seq<char>>,
    after: Map<Seq<char>, Seq<char>>,
    pending: Seq<PendingView>,
    i: int,
)
    requires
        0 <= i < pending.len(),
        distinct_pending(pending),
        forall|a: int|
            0 <= a < pending.len() ==> (#[trigger] pending[a]).hash == fingerprint(
                pending[a].content,
            ),
        cut_back(with_pending(before, pending), after),
        with_pending(before, pending).dom().len()
            <= crate::service::hash_cache::MAX_FILE_HASHES_PER_INDEX,
    ensures
        unchanged(pending[i].path, pending[i].content, after),
{
    lemma_with_pending_keeps(before, pending, i);
}

} // verus!
