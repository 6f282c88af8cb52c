//! Reindexing: what is read, skipped, reported and remembered.
use crate::paths::{below, is_absolute, path_spans, plain_path_spec};
use crate::service::events::{event_views, EventView, ReindexEvent, ReindexTimings};
use crate::service::hash_cache::{cut_back, fingerprint, hex_digit, hex_spec, sha256};
use crate::service::memory::larger;
use crate::service::reindex::{
    pending_views, rate, shown_path, tally_file, tally_files, timings_with, with_pending,
    BatchOutcome, FileRead, PendingFile, PendingView, Tally,
};
use vstd::prelude::*;
use vstd::utf8::encode_utf8;

verus! {

// ---------------------------------------------------------------------------
// Looking at the files of a batch
// ---------------------------------------------------------------------------

/// Whether the file could not be read.
pub open spec fn is_unreadable(read: FileRead) -> bool {
    read.content is Err
}

/// Whether the file was read and is passed over: it is minified, or known with this
/// very content.
pub open spec fn is_skipped(read: FileRead, hashes: Map<Seq<char>, Seq<char>>) -> bool {
    read.content matches Ok(content) && (read.minified || (hashes.contains_key(
        plain_path_spec(read.path@),
    ) && hashes[plain_path_spec(read.path@)] == fingerprint(content@)))
}

/// Whether the file was read and has to be indexed.
pub open spec fn is_due(read: FileRead, hashes: Map<Seq<char>, Seq<char>>) -> bool {
    !is_unreadable(read) && !is_skipped(read, hashes)
}

/// The positions of the first `n` files that have to be indexed, in ascending order.
pub open spec fn due(reads: Seq<FileRead>, hashes: Map<Seq<char>, Seq<char>>, n: nat) -> Seq<int> {
    Seq::new(n, |i: int| i).filter(|i: int| is_due(reads[i], hashes))
}

/// The positions of the first `n` files that are reported, in ascending order: those
/// that do not have to be indexed.
pub open spec fn told(reads: Seq<FileRead>, hashes: Map<Seq<char>, Seq<char>>, n: nat) -> Seq<int> {
    Seq::new(n, |i: int| i).filter(|i: int| !is_due(reads[i], hashes))
}

/// How many of the first `n` files could not be read.
pub open spec fn unreadable_among(reads: Seq<FileRead>, n: nat) -> nat {
    Seq::new(n, |i: int| i).filter(|i: int| is_unreadable(reads[i])).len()
}

/// How many of the first `n` files are passed over.
pub open spec fn skipped_among(
    reads: Seq<FileRead>,
    hashes: Map<Seq<char>, Seq<char>>,
    n: nat,
) -> nat {
    Seq::new(n, |i: int| i).filter(|i: int| is_skipped(reads[i], hashes)).len()
}

/// Whether the pending file is the one that was read, with its fingerprint.
pub open spec fn is_pending_read(p: PendingView, read: FileRead) -> bool {
    &&& p.path == read.path@
    &&& read.content matches Ok(content) && p.content == content@ && p.hash == fingerprint(content@)
}

/// Whether the event tells of the `i`-th file: why it could not be read, or why it
/// was passed over, and how far the run had come by then.
pub open spec fn tells_read(
    e: EventView,
    reads: Seq<FileRead>,
    hashes: Map<Seq<char>, Seq<char>>,
    i: int,
    root: Seq<char>,
    indexed: int,
    total: usize,
) -> bool {
    match reads[i].content {
        Err(m) => e == (EventView::FileError {
            file: shown_path(reads[i].path@, root),
            message: "read: "@ + m@,
            indexed: (indexed + skipped_among(reads, hashes, i as nat)) as usize,
            total_files: total,
        }),
        Ok(_) => e == (EventView::Skip {
            file: shown_path(reads[i].path@, root),
            minified: reads[i].minified,
            indexed: (indexed + skipped_among(reads, hashes, i as nat) + 1) as usize,
            total_files: total,
        }),
    }
}

proof fn lemma_positions(n: nat, f: spec_fn(int) -> bool)
    requires
        n > 0,
    ensures
        Seq::new(n, |i: int| i).filter(f) == (if f(n - 1) {
            Seq::new((n - 1) as nat, |i: int| i).filter(f).push(n - 1)
        } else {
            Seq::new((n - 1) as nat, |i: int| i).filter(f)
        }),
{
    reveal(Seq::filter);
    assert(Seq::new(n, |i: int| i).drop_last() =~= Seq::new((n - 1) as nat, |i: int| i));
    assert(Seq::new(n, |i: int| i).last() == n - 1);
}

proof fn lemma_looked_at(
    t: Tally,
    reads: Seq<FileRead>,
    root: Seq<char>,
    hashes: Map<Seq<char>, Seq<char>>,
    total: usize,
    n: nat,
)
    requires
        n <= reads.len(),
        t.events.len() == 0,
        t.pending.len() == 0,
    ensures
        ({
            let r = tally_files(t, reads.take(n as int), root, hashes, total);
            &&& r.errors == t.errors + unreadable_among(reads, n)
            &&& r.skipped == t.skipped + skipped_among(reads, hashes, n)
            &&& r.indexed == t.indexed + skipped_among(reads, hashes, n)
            &&& r.pending.len() == due(reads, hashes, n).len()
            &&& r.events.len() == told(reads, hashes, n).len()
        }),
        forall|p: int|
            0 <= p < due(reads, hashes, n).len() ==> 0 <= (#[trigger] due(reads, hashes, n)[p]) < n
                && is_pending_read(
                tally_files(t, reads.take(n as int), root, hashes, total).pending[p],
                reads[due(reads, hashes, n)[p]],
            ),
        forall|p: int|
            0 <= p < told(reads, hashes, n).len() ==> 0 <= (#[trigger] told(reads, hashes, n)[p])
                < n && tells_read(
                tally_files(t, reads.take(n as int), root, hashes, total).events[p],
                reads,
                hashes,
                told(reads, hashes, n)[p],
                root,
                t.indexed,
                total,
            ),
    decreases n,
{
    let part = reads.take(n as int);
    if n == 0 {
        assert(part =~= Seq::empty());
        assert(Seq::new(0, |i: int| i) =~= Seq::empty());
        reveal(Seq::filter);
        assert(due(reads, hashes, 0).len() == 0);
        assert(told(reads, hashes, 0).len() == 0);
        assert(unreadable_among(reads, 0) == 0);
        assert(skipped_among(reads, hashes, 0) == 0);
    } else {
        let m = (n - 1) as nat;
        lemma_looked_at(t, reads, root, hashes, total, m);
        assert(part.drop_last() =~= reads.take(m as int));
        assert(part.last() == reads[m as int]);
        lemma_positions(n, |i: int| is_due(reads[i], hashes));
        lemma_positions(n, |i: int| !is_due(reads[i], hashes));
        lemma_positions(n, |i: int| is_unreadable(reads[i]));
        lemma_positions(n, |i: int| is_skipped(reads[i], hashes));
        let before = tally_files(t, reads.take(m as int), root, hashes, total);
        let after = tally_files(t, part, root, hashes, total);
        assert(after == tally_file(before, reads[m as int], root, hashes, total));
        let d0 = due(reads, hashes, m);
        let d = due(reads, hashes, n);
        assert forall|p: int| 0 <= p < d.len() implies 0 <= (#[trigger] d[p]) < n
            && is_pending_read(after.pending[p], reads[d[p]]) by {
            if p < d0.len() {
                assert(d[p] == d0[p]);
                assert(after.pending[p] == before.pending[p]);
            }
        }
        let s0 = told(reads, hashes, m);
        let s = told(reads, hashes, n);
        assert forall|p: int| 0 <= p < s.len() implies 0 <= (#[trigger] s[p]) < n && tells_read(
            after.events[p],
            reads,
            hashes,
            s[p],
            root,
            t.indexed,
            total,
        ) by {
            if p < s0.len() {
                assert(s[p] == s0[p]);
                assert(after.events[p] == before.events[p]);
            }
        }
    }
}

/// Of the files of a batch, those that could be read, are not minified and are not
/// known with their content wait to be indexed, in order; each of the others is
/// reported, in order, and counted as an error where it could not be read and as
/// passed over where it could.
pub proof fn every_file_is_indexed_or_reported(
    t: Tally,
    reads: Seq<FileRead>,
    root: Seq<char>,
    hashes: Map<Seq<char>, Seq<char>>,
    total: usize,
    pending: Seq<PendingFile>,
    events: Seq<ReindexEvent>,
)
    requires
        t.events.len() == 0,
        t.pending.len() == 0,
        pending_views(pending) == tally_files(t, reads, root, hashes, total).pending,
        event_views(events) == tally_files(t, reads, root, hashes, total).events,
    ensures
        tally_files(t, reads, root, hashes, total).errors == t.errors + unreadable_among(
            reads,
            reads.len(),
        ),
        tally_files(t, reads, root, hashes, total).skipped == t.skipped + skipped_among(
            reads,
            hashes,
            reads.len(),
        ),
        tally_files(t, reads, root, hashes, total).indexed == t.indexed + skipped_among(
            reads,
            hashes,
            reads.len(),
        ),
        pending.len() == due(reads, hashes, reads.len()).len(),
        forall|p: int|
            0 <= p < pending.len() ==> is_pending_read(
                (#[trigger] pending[p])@,
                reads[due(reads, hashes, reads.len())[p]],
            ),
        events.len() == told(reads, hashes, reads.len()).len(),
        forall|p: int|
            0 <= p < events.len() ==> tells_read(
                (#[trigger] events[p])@,
                reads,
                hashes,
                told(reads, hashes, reads.len())[p],
                root,
                t.indexed,
                total,
            ),
{
    let n = reads.len();
    lemma_looked_at(t, reads, root, hashes, total, n);
    assert(reads.take(n as int) =~= reads);
    assert(pending.len() == pending_views(pending).len());
    assert(events.len() == event_views(events).len());
    assert forall|p: int| 0 <= p < pending.len() implies is_pending_read(
        (#[trigger] pending[p])@,
        reads[due(reads, hashes, n)[p]],
    ) by {
        assert(pending_views(pending)[p] == pending[p]@);
        let i = due(reads, hashes, n)[p];
        assert(0 <= i < n);
    }
    assert forall|p: int| 0 <= p < events.len() implies tells_read(
        (#[trigger] events[p])@,
        reads,
        hashes,
        told(reads, hashes, n)[p],
        root,
        t.indexed,
        total,
    ) by {
        assert(event_views(events)[p] == events[p]@);
        let i = told(reads, hashes, n)[p];
        assert(0 <= i < n);
    }
}

/// A file that lies below the root is shown by what follows the root: from the first
/// component behind it to the last. Any other file is shown by its whole path.
pub proof fn files_are_shown_below_their_root(path: Seq<char>, root: Seq<char>)
    ensures
        ({
            let p = path_spans(path);
            let r = path_spans(root);
            let shown = shown_path(path, root);
            &&& !below(path, root) ==> shown == path
            &&& below(path, root) && r.len() < p.len() && (r.len() > 0 || is_absolute(root)) ==> shown
                == path.subrange(p[r.len() as int].0, p.last().1)
            &&& below(path, root) && r.len() == p.len() && r.len() > 0 ==> shown.len() == 0
        }),
{
}

// ---------------------------------------------------------------------------
// What is remembered
// ---------------------------------------------------------------------------

/// The number that a hexadecimal digit stands for.
pub open spec fn digit_number(c: char) -> int {
    if '0' <= c && c <= '9' {
        c as int - '0' as int
    } else {
        c as int - 'a' as int + 10
    }
}

/// Whether the character is a lower-case hexadecimal digit.
pub open spec fn is_hex_digit(c: char) -> bool {
    ('0' <= c && c <= '9') || ('a' <= c && c <= 'f')
}

proof fn lemma_hex_digit(n: u8)
    requires
        n < 16,
    ensures
        is_hex_digit(hex_digit(n)),
        digit_number(hex_digit(n)) == n,
{
}

/// A fingerprint shows each byte of the digest, in order, as two lower-case
/// hexadecimal digits, the higher one first.
pub proof fn digits_spell_the_bytes(bytes: Seq<u8>, i: int)
    requires
        0 <= i < bytes.len(),
    ensures
        hex_spec(bytes).len() == 2 * bytes.len(),
        is_hex_digit(hex_spec(bytes)[2 * i]),
        is_hex_digit(hex_spec(bytes)[2 * i + 1]),
        digit_number(hex_spec(bytes)[2 * i]) * 16 + digit_number(hex_spec(bytes)[2 * i + 1])
            == bytes[i],
    decreases bytes.len(),
{
    let head = bytes.drop_last();
    let n = bytes.len() - 1;
    lemma_hex_len(head);
    lemma_hex_digit(bytes[n] / 16);
    lemma_hex_digit(bytes[n] % 16);
    if i < n {
        digits_spell_the_bytes(head, i);
        assert(head[i] == bytes[i]);
        assert(hex_spec(bytes)[2 * i] == hex_spec(head)[2 * i]);
        assert(hex_spec(bytes)[2 * i + 1] == hex_spec(head)[2 * i + 1]);
    }
}

proof fn lemma_hex_len(bytes: Seq<u8>)
    ensures
        hex_spec(bytes).len() == 2 * bytes.len(),
    decreases bytes.len(),
{
    if bytes.len() > 0 {
        lemma_hex_len(bytes.drop_last());
    }
}

/// Two contents have the same fingerprint exactly where their UTF-8 bytes have the
/// same SHA-256 digest.
pub proof fn fingerprints_tell_digests_apart(a: Seq<char>, b: Seq<char>)
    ensures
        fingerprint(a) == fingerprint(b) <==> sha256(encode_utf8(a)) == sha256(encode_utf8(b)),
{
    let x = sha256(encode_utf8(a));
    let y = sha256(encode_utf8(b));
    if fingerprint(a) == fingerprint(b) {
        lemma_hex_len(x);
        lemma_hex_len(y);
        assert forall|i: int| 0 <= i < x.len() implies x[i] == y[i] by {
            digits_spell_the_bytes(x, i);
            digits_spell_the_bytes(y, i);
        }
        assert(x =~= y);
    }
}

/// Remembering the files of a batch changes nothing about any other file, and of
/// each of its files the fingerprint that was computed last is known.
pub proof fn only_the_files_of_the_batch_are_remembered(
    hashes: Map<Seq<char>, Seq<char>>,
    pending: Seq<PendingView>,
    k: Seq<char>,
)
    ensures
        (forall|i: int| 0 <= i < pending.len() ==> plain_path_spec((#[trigger] pending[i]).path) != k)
            ==> (with_pending(hashes, pending).contains_key(k) == hashes.contains_key(k)
            && with_pending(hashes, pending)[k] == hashes[k]),
    decreases pending.len(),
{
    if pending.len() > 0 {
        let head = pending.drop_last();
        only_the_files_of_the_batch_are_remembered(hashes, head, k);
        if forall|i: int| 0 <= i < pending.len() ==> plain_path_spec((#[trigger] pending[i]).path) != k {
            assert forall|i: int| 0 <= i < head.len() implies plain_path_spec(
                (#[trigger] head[i]).path,
            ) != k by {
                assert(head[i] == pending[i]);
            }
            assert(plain_path_spec(pending[pending.len() - 1].path) != k);
        }
    }
}

/// Of the files of a batch, the last one with a path is remembered with its
/// fingerprint.
pub proof fn every_file_of_the_batch_is_remembered(
    hashes: Map<Seq<char>, Seq<char>>,
    pending: Seq<PendingView>,
    i: int,
)
    requires
        0 <= i < pending.len(),
        forall|j: int|
            i < j < pending.len() ==> plain_path_spec((#[trigger] pending[j]).path)
                != plain_path_spec(pending[i].path),
    ensures
        with_pending(hashes, pending).contains_key(plain_path_spec(pending[i].path)),
        with_pending(hashes, pending)[plain_path_spec(pending[i].path)] == pending[i].hash,
    decreases pending.len(),
{
    let head = pending.drop_last();
    let n = pending.len() - 1;
    if i < n {
        assert(head[i] == pending[i]);
        assert forall|j: int| i < j < head.len() implies plain_path_spec((#[trigger] head[j]).path)
            != plain_path_spec(head[i].path) by {
            assert(head[j] == pending[j]);
        }
        every_file_of_the_batch_is_remembered(hashes, head, i);
        assert(plain_path_spec(pending[n].path) != plain_path_spec(pending[i].path));
    }
}

/// Cutting the cache back makes nothing up and loses nothing as long as it is not
/// too large; where it is, so much is left that a tenth of the room is free.
pub proof fn cutting_back_makes_nothing_up(
    before: Map<Seq<char>, Seq<char>>,
    after: Map<Seq<char>, Seq<char>>,
    k: Seq<char>,
)
    requires
        cut_back(before, after),
    ensures
        after.contains_key(k) ==> before.contains_key(k) && after[k] == before[k],
        before.contains_key(k) && before.dom().len() <= 200_000 ==> after.contains_key(k),
        before.dom().len() > 200_000 ==> after.dom().len() == 180_000,
{
}

// ---------------------------------------------------------------------------
// Numbers
// ---------------------------------------------------------------------------

/// Whether `sum` is what the two make together, or the most that can be held.
pub open spec fn adds_up(a: u64, b: u64, sum: u64) -> bool {
    sum == a + b || (a + b > u64::MAX && sum == u64::MAX)
}

/// Whether `sum` is what the two make together, or the most that can be held.
pub open spec fn counts_up(a: usize, b: usize, sum: usize) -> bool {
    sum == a + b || (a + b > usize::MAX && sum == usize::MAX)
}

/// The time of each stage and the number of vectors add up over the batches; what
/// the graph took is not touched.
pub proof fn stage_times_add_up(t: ReindexTimings, o: BatchOutcome)
    ensures
        adds_up(t.parse_ms, o.parse_ms, timings_with(t, o).parse_ms),
        adds_up(t.embed_ms, o.embed_ms, timings_with(t, o).embed_ms),
        adds_up(t.bm25_ms, o.bm25_ms, timings_with(t, o).bm25_ms),
        adds_up(t.vector_upsert_ms, o.vector_upsert_ms, timings_with(t, o).vector_upsert_ms),
        counts_up(t.vector_count, o.vector_count, timings_with(t, o).vector_count),
        timings_with(t, o).kg_ms == t.kg_ms,
        timings_with(t, o).symbol_count == t.symbol_count,
        timings_with(t, o).edge_count == t.edge_count,
{
}

/// The rate is the largest whole number of chunks per second that the run reached.
pub proof fn rate_is_chunks_per_second(chunks: usize, elapsed_ms: u64)
    requires
        chunks * 1000 <= u64::MAX,
    ensures
        elapsed_ms == 0 ==> rate(chunks, elapsed_ms) == 0,
        elapsed_ms > 0 ==> rate(chunks, elapsed_ms) * elapsed_ms <= chunks * 1000 < (rate(
            chunks,
            elapsed_ms,
        ) + 1) * elapsed_ms,
{
    if elapsed_ms > 0 {
        let n = chunks * 1000;
        let d = elapsed_ms as int;
        let q = n / d;
        assert(0 <= q <= n && q * d <= n < (q + 1) * d) by (nonlinear_arith)
            requires
                n >= 0,
                d > 0,
                q == n / d,
        ;
    }
}

/// The larger of two readings is one of them, and neither is above it.
pub proof fn peak_is_the_largest_reading(a: u64, b: u64)
    ensures
        larger(a, b) >= a,
        larger(a, b) >= b,
        larger(a, b) == a || larger(a, b) == b,
{
}

} // verus!
