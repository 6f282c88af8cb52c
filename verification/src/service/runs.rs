//! Whole reindexes, batch after batch.
//!
//! What one batch does to the counters and the fingerprints is what
//! [`ReindexRun::classify`](crate::service::reindex::ReindexRun::classify) and
//! [`ReindexRun::record_batch`](crate::service::reindex::ReindexRun::record_batch)
//! state; a run is a sequence of such steps.
use crate::paths::plain_path_spec;
use crate::service::events::EventView;
use crate::service::hash_cache::{
    cut_back, fingerprint, is_listing, paths_are_plain, recorded, recorded_paths_are_plain,
    restored_cache_knows_the_same, MAX_FILE_HASHES_PER_INDEX,
};
use crate::service::reindex::{
    lemma_tally_counts, shown_path, tally_files, unchanged, with_pending, BatchOutcome, FileRead,
    PendingView, ReindexProgress, Tally,
};
use vstd::prelude::*;

verus! {

/// The file that was read, by the plain form of its path.
pub open spec fn file_of(read: FileRead) -> Seq<char> {
    plain_path_spec(read.path@)
}

/// Where a run stands: its counters and the fingerprints that are known.
#[verifier::ext_equal]
pub struct RunView {
    pub errors: int,
    pub skipped: int,
    pub indexed: int,
    pub chunks: int,
    pub hashes: Map<Seq<char>, Seq<char>>,
}

/// Where a run stands, by its progress and its fingerprints.
pub open spec fn run_view(p: ReindexProgress, hashes: Map<Seq<char>, Seq<char>>) -> RunView {
    RunView {
        errors: p.errors as int,
        skipped: p.skipped as int,
        indexed: p.indexed as int,
        chunks: p.total_chunks as int,
        hashes,
    }
}

/// A run before its first batch.
pub open spec fn run_start(hashes: Map<Seq<char>, Seq<char>>) -> RunView {
    RunView { errors: 0, skipped: 0, indexed: 0, chunks: 0, hashes }
}

/// The counters, reports and pending files after the files of a batch were
/// looked at.
pub open spec fn batch_tally(
    s: RunView,
    reads: Seq<FileRead>,
    root: Seq<char>,
    total: usize,
) -> Tally {
    tally_files(
        Tally {
            errors: s.errors,
            skipped: s.skipped,
            indexed: s.indexed,
            events: Seq::empty(),
            pending: Seq::empty(),
        },
        reads,
        root,
        s.hashes,
        total,
    )
}

/// Where a run stands after the files of a batch were looked at, and the files
/// that are then pending.
pub open spec fn looked_at(
    s: RunView,
    reads: Seq<FileRead>,
    root: Seq<char>,
    total: usize,
) -> (RunView, Seq<PendingView>) {
    let t = batch_tally(s, reads, root, total);
    (
        RunView { errors: t.errors, skipped: t.skipped, indexed: t.indexed, ..s },
        t.pending,
    )
}

/// Whether what came of the pending files leads from one state to the other.
pub open spec fn settled(
    before: RunView,
    pending: Seq<PendingView>,
    outcome: Result<BatchOutcome, String>,
    after: RunView,
) -> bool {
    match outcome {
        Ok(o) => {
            &&& cut_back(with_pending(before.hashes, pending), after.hashes)
            &&& after == (RunView {
                indexed: before.indexed + pending.len(),
                chunks: before.chunks + o.chunks,
                hashes: after.hashes,
                ..before
            })
        },
        Err(_) => after == (RunView { errors: before.errors + pending.len(), ..before }),
    }
}

/// Whether a batch leads from one state to the other. Where files are pending,
/// `outcome` says what came of them.
pub open spec fn batch_leads_to(
    before: RunView,
    after: RunView,
    reads: Seq<FileRead>,
    outcome: Result<BatchOutcome, String>,
    root: Seq<char>,
    total: usize,
) -> bool {
    let (seen, pending) = looked_at(before, reads, root, total);
    if pending.len() == 0 {
        after == seen
    } else {
        settled(seen, pending, outcome, after)
    }
}

/// Whether `states` are the states of a run over the batches: the first before
/// the first batch, the last after the last one.
pub open spec fn is_run(
    states: Seq<RunView>,
    batches: Seq<Seq<FileRead>>,
    outcomes: Seq<Result<BatchOutcome, String>>,
    root: Seq<char>,
    total: usize,
) -> bool {
    &&& states.len() == batches.len() + 1
    &&& outcomes.len() == batches.len()
    &&& forall|b: int|
        0 <= b < batches.len() ==> batch_leads_to(
            states[b],
            states[b + 1],
            #[trigger] batches[b],
            outcomes[b],
            root,
            total,
        )
}

/// How many files the first `n` batches have.
pub open spec fn files_in(batches: Seq<Seq<FileRead>>, n: int) -> int
    decreases n,
{
    if n <= 0 {
        0
    } else {
        files_in(batches, n - 1) + batches[n - 1].len()
    }
}

/// How many of the files are minified, among those that can be read.
pub open spec fn minified_among(reads: Seq<FileRead>) -> int
    decreases reads.len(),
{
    if reads.len() == 0 {
        0
    } else {
        minified_among(reads.drop_last()) + (if reads.last().content is Ok
            && reads.last().minified {
            1int
        } else {
            0
        })
    }
}

/// How many files of the first `n` batches are minified, among those that can be
/// read.
pub open spec fn minified_in(batches: Seq<Seq<FileRead>>, n: int) -> int
    decreases n,
{
    if n <= 0 {
        0
    } else {
        minified_in(batches, n - 1) + minified_among(batches[n - 1])
    }
}

/// Whether no file occurs twice, in one batch or in two.
pub open spec fn distinct_paths(batches: Seq<Seq<FileRead>>) -> bool {
    forall|a: int, i: int, b: int, j: int|
        0 <= a < batches.len() && 0 <= i < batches[a].len() && 0 <= b < batches.len() && 0 <= j
            < batches[b].len() && (a != b || i != j) ==> file_of(#[trigger] batches[a][i])
            != file_of(#[trigger] batches[b][j])
}

/// Whether reading the file again gave the same.
pub open spec fn same_read(a: FileRead, b: FileRead) -> bool {
    &&& file_of(a) == file_of(b)
    &&& a.minified == b.minified
    &&& a.content is Ok
    &&& b.content is Ok
    &&& a.content->Ok_0@ == b.content->Ok_0@
}

/// Whether the two runs read the same files with the same contents.
pub open spec fn same_reads(a: Seq<Seq<FileRead>>, b: Seq<Seq<FileRead>>) -> bool {
    &&& a.len() == b.len()
    &&& forall|n: int| 0 <= n < a.len() ==> (#[trigger] a[n]).len() == b[n].len()
    &&& forall|n: int, i: int|
        0 <= n < a.len() && 0 <= i < a[n].len() ==> same_read(#[trigger] a[n][i], b[n][i])
}

/// Whether the fingerprint of a file is known, where it has to be.
pub open spec fn known(read: FileRead, hashes: Map<Seq<char>, Seq<char>>) -> bool {
    read.content is Ok && !read.minified ==> unchanged(read.path@, read.content->Ok_0@, hashes)
}

/// Whether no file occurs twice in a batch.
pub open spec fn distinct_in(reads: Seq<FileRead>) -> bool {
    forall|i: int, j: int|
        0 <= i < j < reads.len() ==> file_of(#[trigger] reads[i]) != file_of(#[trigger] reads[j])
}

/// Whether a plain path is that of a file of the batch.
pub open spec fn has_path(reads: Seq<FileRead>, k: Seq<char>) -> bool {
    exists|i: int| 0 <= i < reads.len() && file_of(#[trigger] reads[i]) == k
}

proof fn lemma_has_path_head(reads: Seq<FileRead>, k: Seq<char>)
    requires
        reads.len() > 0,
    ensures
        has_path(reads, k) == (has_path(reads.drop_last(), k) || file_of(reads.last()) == k),
{
    let head = reads.drop_last();
    if has_path(reads, k) {
        let i = choose|i: int| 0 <= i < reads.len() && file_of(#[trigger] reads[i]) == k;
        if i < head.len() {
            assert(file_of(head[i]) == k);
        }
    }
    if has_path(head, k) {
        let i = choose|i: int| 0 <= i < head.len() && file_of(#[trigger] head[i]) == k;
        assert(file_of(reads[i]) == k);
    }
    assert(file_of(reads[reads.len() - 1]) == file_of(reads.last()));
}

/// After the fingerprints of a batch were recorded, those of its files are known
/// and no other one has changed.
proof fn lemma_recorded(
    t: Tally,
    reads: Seq<FileRead>,
    root: Seq<char>,
    hashes: Map<Seq<char>, Seq<char>>,
    total: usize,
)
    requires
        t.pending.len() == 0,
        distinct_in(reads),
    ensures
        ({
            let after = with_pending(hashes, tally_files(t, reads, root, hashes, total).pending);
            &&& forall|i: int| 0 <= i < reads.len() ==> known(#[trigger] reads[i], after)
            &&& forall|k: Seq<char>|
                !has_path(reads, k) ==> (#[trigger] after.contains_key(k)) == hashes.contains_key(k)
            &&& forall|k: Seq<char>|
                !has_path(reads, k) && hashes.contains_key(k) ==> #[trigger] after[k] == hashes[k]
        }),
    decreases reads.len(),
{
    let pending = tally_files(t, reads, root, hashes, total).pending;
    let after = with_pending(hashes, pending);
    if reads.len() == 0 {
        assert(pending.len() == 0);
    } else {
        let head = reads.drop_last();
        let last = reads.last();
        assert(distinct_in(head)) by {
            assert forall|i: int, j: int| 0 <= i < j < head.len() implies file_of(#[trigger] head[i])
                != file_of(#[trigger] head[j]) by {
                assert(file_of(reads[i]) != file_of(reads[j]));
            }
        }
        lemma_recorded(t, head, root, hashes, total);
        let before = tally_files(t, head, root, hashes, total).pending;
        let mid = with_pending(hashes, before);
        assert(!has_path(head, file_of(last))) by {
            if has_path(head, file_of(last)) {
                let i = choose|i: int|
                    0 <= i < head.len() && file_of(#[trigger] head[i]) == file_of(last);
                assert(file_of(reads[i]) != file_of(reads[reads.len() - 1]));
            }
        }
        if pending != before {
            assert(pending.drop_last() =~= before);
            assert(after == mid.insert(file_of(last), fingerprint(last.content->Ok_0@)));
        }
        assert(mid.contains_key(file_of(last)) == hashes.contains_key(file_of(last)));
        assert forall|i: int| 0 <= i < reads.len() implies known(#[trigger] reads[i], after) by {
            if i < head.len() {
                assert(known(head[i], mid));
                assert(head[i] == reads[i]);
                assert(file_of(reads[i]) != file_of(reads[reads.len() - 1]));
            } else {
                assert(reads[i] == last);
                if hashes.contains_key(file_of(last)) {
                    assert(mid[file_of(last)] == hashes[file_of(last)]);
                }
            }
        }
        assert forall|k: Seq<char>| !has_path(reads, k) implies (#[trigger] after.contains_key(k))
            == hashes.contains_key(k) by {
            lemma_has_path_head(reads, k);
            assert(mid.contains_key(k) == hashes.contains_key(k));
        }
        assert forall|k: Seq<char>|
            !has_path(reads, k) && hashes.contains_key(k) implies #[trigger] after[k] == hashes[k] by {
            lemma_has_path_head(reads, k);
            assert(mid[k] == hashes[k]);
        }
    }
}

/// A batch counts an error exactly where a file cannot be read.
proof fn lemma_tally_errors(
    t: Tally,
    reads: Seq<FileRead>,
    root: Seq<char>,
    hashes: Map<Seq<char>, Seq<char>>,
    total: usize,
)
    ensures
        tally_files(t, reads, root, hashes, total).errors >= t.errors,
        tally_files(t, reads, root, hashes, total).errors == t.errors <==> (forall|i: int|
            0 <= i < reads.len() ==> (#[trigger] reads[i]).content is Ok),
    decreases reads.len(),
{
    if reads.len() > 0 {
        let head = reads.drop_last();
        lemma_tally_errors(t, head, root, hashes, total);
        let r = tally_files(t, reads, root, hashes, total);
        if r.errors == t.errors {
            assert forall|i: int| 0 <= i < reads.len() implies (#[trigger] reads[i]).content is Ok by {
                if i < head.len() {
                    assert(head[i].content is Ok);
                } else {
                    assert(reads[i] == reads.last());
                }
            }
        }
        if forall|i: int| 0 <= i < reads.len() ==> (#[trigger] reads[i]).content is Ok {
            assert forall|i: int| 0 <= i < head.len() implies (#[trigger] head[i]).content is Ok by {
                assert(reads[i].content is Ok);
            }
            assert(reads[reads.len() - 1].content is Ok);
        }
    }
}

/// Where no fingerprint of a batch is known, only minified files are skipped.
proof fn lemma_only_minified_skipped(
    t: Tally,
    reads: Seq<FileRead>,
    root: Seq<char>,
    hashes: Map<Seq<char>, Seq<char>>,
    total: usize,
)
    requires
        forall|i: int|
            0 <= i < reads.len() ==> !hashes.contains_key(file_of(#[trigger] reads[i])),
    ensures
        tally_files(t, reads, root, hashes, total).skipped == t.skipped + minified_among(reads),
    decreases reads.len(),
{
    if reads.len() > 0 {
        let head = reads.drop_last();
        assert forall|i: int| 0 <= i < head.len() implies !hashes.contains_key(
            file_of(#[trigger] head[i]),
        ) by {
            assert(!hashes.contains_key(file_of(reads[i])));
        }
        lemma_only_minified_skipped(t, head, root, hashes, total);
        assert(!hashes.contains_key(file_of(reads[reads.len() - 1])));
    }
}

/// The reports of files that are skipped one after the other, where `done` files
/// were done with before.
pub open spec fn skip_reports(
    reads: Seq<FileRead>,
    root: Seq<char>,
    done: int,
    total: usize,
) -> Seq<EventView> {
    Seq::new(
        reads.len(),
        |i: int|
            EventView::Skip {
                file: shown_path(reads[i].path@, root),
                minified: reads[i].minified,
                indexed: (done + i + 1) as usize,
                total_files: total,
            },
    )
}

/// Where every fingerprint of a batch is known, all its files are skipped.
proof fn lemma_all_skipped(
    t: Tally,
    reads: Seq<FileRead>,
    root: Seq<char>,
    hashes: Map<Seq<char>, Seq<char>>,
    total: usize,
)
    requires
        forall|i: int|
            0 <= i < reads.len() ==> (#[trigger] reads[i]).content is Ok && known(reads[i], hashes),
    ensures
        ({
            let r = tally_files(t, reads, root, hashes, total);
            &&& r.pending == t.pending
            &&& r.errors == t.errors
            &&& r.skipped == t.skipped + reads.len()
            &&& r.indexed == t.indexed + reads.len()
            &&& r.events == t.events + skip_reports(reads, root, t.indexed, total)
        }),
    decreases reads.len(),
{
    let reports = skip_reports(reads, root, t.indexed, total);
    if reads.len() > 0 {
        let head = reads.drop_last();
        assert forall|i: int| 0 <= i < head.len() implies (#[trigger] head[i]).content is Ok && known(
            head[i],
            hashes,
        ) by {
            assert(reads[i].content is Ok && known(reads[i], hashes));
        }
        lemma_all_skipped(t, head, root, hashes, total);
        let last = reads[reads.len() - 1];
        assert(last.content is Ok && known(last, hashes));
        assert(reports =~= skip_reports(head, root, t.indexed, total).push(reports.last()));
        assert(tally_files(t, reads, root, hashes, total).events =~= t.events + reports);
    } else {
        assert(t.events =~= t.events + reports);
    }
}

/// The errors of a run never become fewer.
proof fn lemma_errors_grow(
    states: Seq<RunView>,
    batches: Seq<Seq<FileRead>>,
    outcomes: Seq<Result<BatchOutcome, String>>,
    root: Seq<char>,
    total: usize,
    n: int,
)
    requires
        is_run(states, batches, outcomes, root, total),
        0 <= n <= batches.len(),
    ensures
        states[n].errors <= states.last().errors,
    decreases batches.len() - n,
{
    if n < batches.len() {
        lemma_errors_grow(states, batches, outcomes, root, total, n + 1);
        assert(batch_leads_to(states[n], states[n + 1], batches[n], outcomes[n], root, total));
        let s = states[n];
        lemma_tally_errors(
            Tally {
                errors: s.errors,
                skipped: s.skipped,
                indexed: s.indexed,
                events: Seq::empty(),
                pending: Seq::empty(),
            },
            batches[n],
            root,
            s.hashes,
            total,
        );
    }
}

/// The paths of all batches, and those whose fingerprints were known before.
pub open spec fn paths_and(
    batches: Seq<Seq<FileRead>>,
    hashes: Map<Seq<char>, Seq<char>>,
) -> Set<Seq<char>> {
    Set::new(
        |k: Seq<char>|
            hashes.contains_key(k) || exists|b: int|
                0 <= b < batches.len() && has_path(#[trigger] batches[b], k),
    )
}

/// After the first `n` batches of a run without errors, the fingerprints of their
/// files are known.
proof fn lemma_run_knows(
    states: Seq<RunView>,
    batches: Seq<Seq<FileRead>>,
    outcomes: Seq<Result<BatchOutcome, String>>,
    root: Seq<char>,
    total: usize,
    n: int,
)
    requires
        is_run(states, batches, outcomes, root, total),
        distinct_paths(batches),
        states[0].errors == 0,
        states.last().errors == 0,
        paths_and(batches, states[0].hashes).finite(),
        paths_and(batches, states[0].hashes).len() <= MAX_FILE_HASHES_PER_INDEX,
        0 <= n <= batches.len(),
    ensures
        states[n].errors == 0,
        states[n].hashes.dom().subset_of(paths_and(batches, states[0].hashes)),
        forall|b: int, i: int|
            0 <= b < n && 0 <= i < batches[b].len() ==> known(
                #[trigger] batches[b][i],
                states[n].hashes,
            ) && batches[b][i].content is Ok,
    decreases n,
{
    let all = paths_and(batches, states[0].hashes);
    if n > 0 {
        let m = n - 1;
        let s = states[m];
        let reads = batches[m];
        lemma_run_knows(states, batches, outcomes, root, total, m);
        lemma_errors_grow(states, batches, outcomes, root, total, n);
        assert(batch_leads_to(s, states[m + 1], batches[m], outcomes[m], root, total));
        let t0 = Tally {
            errors: s.errors,
            skipped: s.skipped,
            indexed: s.indexed,
            events: Seq::empty(),
            pending: Seq::empty(),
        };
        assert(distinct_in(reads)) by {
            assert forall|i: int, j: int| 0 <= i < j < reads.len() implies file_of(#[trigger] reads[i])
                != file_of(#[trigger] reads[j]) by {
                assert(file_of(batches[m][i]) != file_of(batches[m][j]));
            }
        }
        lemma_tally_errors(t0, reads, root, s.hashes, total);
        lemma_recorded(t0, reads, root, s.hashes, total);
        let pending = batch_tally(s, reads, root, total).pending;
        let recorded = with_pending(s.hashes, pending);
        assert(recorded.dom().subset_of(all)) by {
            assert forall|k: Seq<char>| recorded.dom().contains(k) implies all.contains(k) by {
                if !has_path(reads, k) {
                    assert(recorded.contains_key(k) == s.hashes.contains_key(k));
                    assert(s.hashes.dom().contains(k));
                } else {
                    assert(has_path(batches[m], k));
                }
            }
        }
        vstd::set_lib::lemma_len_subset(recorded.dom(), all);
        assert(states[n].hashes == recorded);
        assert forall|b: int, i: int| 0 <= b < n && 0 <= i < batches[b].len() implies known(
            #[trigger] batches[b][i],
            states[n].hashes,
        ) && batches[b][i].content is Ok by {
            let read = batches[b][i];
            if b < m {
                assert(known(read, s.hashes));
                assert(!has_path(reads, file_of(read))) by {
                    if has_path(reads, file_of(read)) {
                        let j = choose|j: int|
                            0 <= j < reads.len() && file_of(#[trigger] reads[j]) == file_of(read);
                        assert(file_of(batches[b][i]) != file_of(batches[m][j]));
                    }
                }
                if s.hashes.contains_key(file_of(read)) {
                    assert(recorded.contains_key(file_of(read)));
                    assert(recorded[file_of(read)] == s.hashes[file_of(read)]);
                }
            } else {
                assert(known(reads[i], recorded));
                assert(reads[i].content is Ok);
            }
        }
    }
}

proof fn lemma_second_run(
    states: Seq<RunView>,
    batches: Seq<Seq<FileRead>>,
    outcomes: Seq<Result<BatchOutcome, String>>,
    hashes: Map<Seq<char>, Seq<char>>,
    root: Seq<char>,
    total: usize,
    n: int,
)
    requires
        is_run(states, batches, outcomes, root, total),
        states[0] == run_start(hashes),
        forall|b: int, i: int|
            0 <= b < batches.len() && 0 <= i < batches[b].len() ==> known(
                #[trigger] batches[b][i],
                hashes,
            ) && batches[b][i].content is Ok,
        0 <= n <= batches.len(),
    ensures
        states[n] == (RunView {
            errors: 0,
            skipped: files_in(batches, n),
            indexed: files_in(batches, n),
            chunks: 0,
            hashes,
        }),
        n > 0 ==> batch_tally(states[n - 1], batches[n - 1], root, total).events == skip_reports(
            batches[n - 1],
            root,
            files_in(batches, n - 1),
            total,
        ),
    decreases n,
{
    if n > 0 {
        let m = n - 1;
        let s = states[m];
        lemma_second_run(states, batches, outcomes, hashes, root, total, m);
        assert(batch_leads_to(s, states[m + 1], batches[m], outcomes[m], root, total));
        let reads = batches[m];
        assert forall|i: int| 0 <= i < reads.len() implies (#[trigger] reads[i]).content is Ok
            && known(reads[i], hashes) by {
            assert(known(batches[m][i], hashes));
        }
        lemma_all_skipped(
            Tally {
                errors: s.errors,
                skipped: s.skipped,
                indexed: s.indexed,
                events: Seq::empty(),
                pending: Seq::empty(),
            },
            reads,
            root,
            hashes,
            total,
        );
        let reports = skip_reports(reads, root, s.indexed, total);
        assert(Seq::<EventView>::empty() + reports =~= reports);
    }
}

proof fn lemma_pending_is_plain(hashes: Map<Seq<char>, Seq<char>>, pending: Seq<PendingView>)
    requires
        paths_are_plain(hashes),
    ensures
        paths_are_plain(with_pending(hashes, pending)),
    decreases pending.len(),
{
    if pending.len() > 0 {
        let last = pending.last();
        lemma_pending_is_plain(hashes, pending.drop_last());
        recorded_paths_are_plain(with_pending(hashes, pending.drop_last()), last.path, last.hash);
    }
}

// ---------------------------------------------------------------------------
// Laws
// ---------------------------------------------------------------------------

/// A run keeps every path of the cache in its plain form.
pub proof fn run_keeps_paths_plain(
    states: Seq<RunView>,
    batches: Seq<Seq<FileRead>>,
    outcomes: Seq<Result<BatchOutcome, String>>,
    root: Seq<char>,
    total: usize,
    n: int,
)
    requires
        is_run(states, batches, outcomes, root, total),
        paths_are_plain(states[0].hashes),
        0 <= n <= batches.len(),
    ensures
        paths_are_plain(states[n].hashes),
    decreases n,
{
    if n > 0 {
        let m = n - 1;
        let s = states[m];
        run_keeps_paths_plain(states, batches, outcomes, root, total, m);
        assert(batch_leads_to(s, states[m + 1], batches[m], outcomes[m], root, total));
        let after = with_pending(s.hashes, batch_tally(s, batches[m], root, total).pending);
        lemma_pending_is_plain(s.hashes, batch_tally(s, batches[m], root, total).pending);
        assert forall|k: Seq<char>| #[trigger] states[n].hashes.contains_key(k) implies plain_path_spec(
            k,
        ) == k by {
            if states[n].hashes != s.hashes {
                assert(states[n].hashes.dom().contains(k));
                assert(after.contains_key(k));
            }
        }
    }
}

/// A second run over files that did not change skips every one of them, reports
/// each as skipped, and indexes nothing, where the first run had no errors and
/// all fingerprints fit into the cache. The second run may name its root, and
/// with it the files, by another text of the same path.
pub proof fn second_run_skips_every_file(
    first: Seq<RunView>,
    second: Seq<RunView>,
    batches: Seq<Seq<FileRead>>,
    again: Seq<Seq<FileRead>>,
    first_outcomes: Seq<Result<BatchOutcome, String>>,
    second_outcomes: Seq<Result<BatchOutcome, String>>,
    root: Seq<char>,
    second_root: Seq<char>,
    total: usize,
)
    requires
        is_run(first, batches, first_outcomes, root, total),
        is_run(second, again, second_outcomes, second_root, total),
        first[0] == run_start(first[0].hashes),
        first.last().errors == 0,
        second[0] == run_start(first.last().hashes),
        distinct_paths(batches),
        same_reads(batches, again),
        paths_and(batches, first[0].hashes).finite(),
        paths_and(batches, first[0].hashes).len() <= MAX_FILE_HASHES_PER_INDEX,
    ensures
        second.last() == (RunView {
            errors: 0,
            skipped: files_in(again, again.len() as int),
            indexed: files_in(again, again.len() as int),
            chunks: 0,
            hashes: first.last().hashes,
        }),
        forall|b: int|
            0 <= b < again.len() ==> batch_tally(
                second[b],
                #[trigger] again[b],
                second_root,
                total,
            ).events == skip_reports(again[b], second_root, files_in(again, b), total),
{
    let n = batches.len() as int;
    lemma_run_knows(first, batches, first_outcomes, root, total, n);
    let hashes = first.last().hashes;
    assert forall|b: int, i: int| 0 <= b < again.len() && 0 <= i < again[b].len() implies known(
        #[trigger] again[b][i],
        hashes,
    ) && again[b][i].content is Ok by {
        assert(batches[b].len() == again[b].len());
        assert(same_read(batches[b][i], again[b][i]));
        assert(known(batches[b][i], hashes));
    }
    lemma_second_run(second, again, second_outcomes, hashes, second_root, total, n);
    assert forall|b: int| 0 <= b < again.len() implies batch_tally(
        second[b],
        #[trigger] again[b],
        second_root,
        total,
    ).events == skip_reports(again[b], second_root, files_in(again, b), total) by {
        lemma_second_run(second, again, second_outcomes, hashes, second_root, total, b + 1);
    }
}

/// Unchanged files are skipped across restarts: a run over a cache that was
/// restored from what the cache of an earlier run handed out skips every file
/// that did not change, as a second run over that cache does.
pub proof fn run_after_a_restart_skips_every_file(
    first: Seq<RunView>,
    second: Seq<RunView>,
    batches: Seq<Seq<FileRead>>,
    again: Seq<Seq<FileRead>>,
    first_outcomes: Seq<Result<BatchOutcome, String>>,
    second_outcomes: Seq<Result<BatchOutcome, String>>,
    root: Seq<char>,
    second_root: Seq<char>,
    total: usize,
    entries: Seq<(Seq<char>, Seq<char>)>,
)
    requires
        is_run(first, batches, first_outcomes, root, total),
        is_run(second, again, second_outcomes, second_root, total),
        first[0] == run_start(first[0].hashes),
        paths_are_plain(first[0].hashes),
        first.last().errors == 0,
        is_listing(entries, first.last().hashes),
        second[0] == run_start(recorded(entries)),
        distinct_paths(batches),
        same_reads(batches, again),
        paths_and(batches, first[0].hashes).finite(),
        paths_and(batches, first[0].hashes).len() <= MAX_FILE_HASHES_PER_INDEX,
    ensures
        second.last() == (RunView {
            errors: 0,
            skipped: files_in(again, again.len() as int),
            indexed: files_in(again, again.len() as int),
            chunks: 0,
            hashes: first.last().hashes,
        }),
        forall|b: int|
            0 <= b < again.len() ==> batch_tally(
                second[b],
                #[trigger] again[b],
                second_root,
                total,
            ).events == skip_reports(again[b], second_root, files_in(again, b), total),
{
    let n = batches.len() as int;
    run_keeps_paths_plain(first, batches, first_outcomes, root, total, n);
    restored_cache_knows_the_same(entries, first.last().hashes);
    second_run_skips_every_file(
        first,
        second,
        batches,
        again,
        first_outcomes,
        second_outcomes,
        root,
        second_root,
        total,
    );
}

/// Whatever a cache knows, a batch that is looked at over the restored cache is
/// told apart as over the first one: the same files are skipped, are pending and
/// are reported.
pub proof fn restored_cache_skips_the_same(
    hashes: Map<Seq<char>, Seq<char>>,
    entries: Seq<(Seq<char>, Seq<char>)>,
    s: RunView,
    reads: Seq<FileRead>,
    root: Seq<char>,
    total: usize,
)
    requires
        paths_are_plain(hashes),
        is_listing(entries, hashes),
    ensures
        batch_tally((RunView { hashes: recorded(entries), ..s }), reads, root, total)
            == batch_tally((RunView { hashes, ..s }), reads, root, total),
{
    restored_cache_knows_the_same(entries, hashes);
}

proof fn lemma_forced_run(
    states: Seq<RunView>,
    batches: Seq<Seq<FileRead>>,
    outcomes: Seq<Result<BatchOutcome, String>>,
    root: Seq<char>,
    total: usize,
    n: int,
)
    requires
        is_run(states, batches, outcomes, root, total),
        states[0] == run_start(Map::empty()),
        distinct_paths(batches),
        0 <= n <= batches.len(),
    ensures
        states[n].skipped == minified_in(batches, n),
        states[n].indexed + states[n].errors == files_in(batches, n),
        forall|k: Seq<char>| #[trigger]
            states[n].hashes.contains_key(k) ==> exists|b: int|
                0 <= b < n && has_path(#[trigger] batches[b], k),
    decreases n,
{
    if n > 0 {
        let m = n - 1;
        let s = states[m];
        let reads = batches[m];
        lemma_forced_run(states, batches, outcomes, root, total, m);
        assert(batch_leads_to(s, states[m + 1], batches[m], outcomes[m], root, total));
        let t0 = Tally {
            errors: s.errors,
            skipped: s.skipped,
            indexed: s.indexed,
            events: Seq::empty(),
            pending: Seq::empty(),
        };
        assert forall|i: int| 0 <= i < reads.len() implies !s.hashes.contains_key(
            file_of(#[trigger] reads[i]),
        ) by {
            let k = file_of(reads[i]);
            if s.hashes.contains_key(k) {
                let b = choose|b: int| 0 <= b < m && has_path(#[trigger] batches[b], k);
                let j = choose|j: int|
                    0 <= j < batches[b].len() && file_of(#[trigger] batches[b][j]) == k;
                assert(file_of(batches[b][j]) != file_of(batches[m][i]));
            }
        }
        assert(distinct_in(reads)) by {
            assert forall|i: int, j: int| 0 <= i < j < reads.len() implies file_of(#[trigger] reads[i])
                != file_of(#[trigger] reads[j]) by {
                assert(file_of(batches[m][i]) != file_of(batches[m][j]));
            }
        }
        lemma_only_minified_skipped(t0, reads, root, s.hashes, total);
        lemma_tally_counts(t0, reads, root, s.hashes, total);
        lemma_recorded(t0, reads, root, s.hashes, total);
        let recorded = with_pending(s.hashes, batch_tally(s, reads, root, total).pending);
        assert forall|k: Seq<char>| #[trigger] states[n].hashes.contains_key(k) implies exists|b: int|
            0 <= b < n && has_path(#[trigger] batches[b], k) by {
            if recorded.contains_key(k) && !has_path(reads, k) {
                assert(s.hashes.contains_key(k));
            }
            if s.hashes.contains_key(k) {
                let b = choose|b: int| 0 <= b < m && has_path(#[trigger] batches[b], k);
                assert(0 <= b < n && has_path(batches[b], k));
            } else {
                assert(recorded.contains_key(k)) by {
                    if states[n].hashes != s.hashes {
                        assert(states[n].hashes.dom().contains(k));
                    }
                }
                assert(has_path(batches[m], k));
            }
        }
    }
}

/// A forced run knows no fingerprints when it begins, so that it skips minified
/// files only and indexes every other file, or counts it as an error.
pub proof fn forced_run_skips_only_minified_files(
    states: Seq<RunView>,
    batches: Seq<Seq<FileRead>>,
    outcomes: Seq<Result<BatchOutcome, String>>,
    root: Seq<char>,
    total: usize,
)
    requires
        is_run(states, batches, outcomes, root, total),
        states[0] == run_start(Map::empty()),
        distinct_paths(batches),
    ensures
        states.last().skipped == minified_in(batches, batches.len() as int),
        states.last().indexed + states.last().errors == files_in(
            batches,
            batches.len() as int,
        ),
{
    lemma_forced_run(states, batches, outcomes, root, total, batches.len() as int);
}

} // verus!
