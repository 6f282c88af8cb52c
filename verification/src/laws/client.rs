//! The client's side of a reindex, and how it finds the daemon.
use crate::commands::daemon_utils::{address_in, base_url, local_url, number_in, pid_in, port_in};
use crate::commands::format::{elapsed_text, grouped, padded, secs_text};
use crate::commands::reindex_client::{
    any_hit, at_least_one, changed_files, eta_text, has_results, headline_text, is_success,
    no_outcome, number_or, past_deadline, per_second, ran_out_of_time, react, react_to_text, reported_chunks,
    stage_texts, stats_text, text_or, was_text, wrapped_sum, Reaction, ReindexOutcome, Score,
    StageTimings,
};
use crate::commands::ui::ui_port;
use crate::json::{member, number_at, parsed_json, text_at, JsonTree};
use crate::laws::answers::{events_can_be_read_by_their_members, says_all};
use crate::laws::checkup::{middle_stands_in_the_whole, stands_in};
use crate::laws::text::{is_blank, numbers_are_read_as_they_are_written, trimming_leaves_the_text};
use crate::service::events::{event_tree, ReindexEvent};
use crate::text::{decimal, is_white};
use vstd::prelude::*;

verus! {

// ---------------------------------------------------------------------------
// Following a reindex
// ---------------------------------------------------------------------------

proof fn lemma_kinds()
    ensures
        "start"@.len() == 5 && "start"@[0] == 's' && "start"@[1] == 't',
        "batch"@.len() == 5 && "batch"@[0] == 'b',
        "error"@.len() == 5 && "error"@[0] == 'e',
        "skip"@.len() == 4,
        "complete"@.len() == 8,
{
    reveal_strlit("start");
    reveal_strlit("batch");
    reveal_strlit("error");
    reveal_strlit("skip");
    reveal_strlit("complete");
}

/// The client begins a reindex with the number of files that the daemon reports, and
/// at least one; nothing else changes, and nothing is shown yet.
pub proof fn client_learns_the_number_of_files(s: Score, e: ReindexEvent)
    requires
        e is Start,
    ensures
        ({
            let (after, reaction) = react(s, event_tree(e@));
            &&& reaction is Nothing
            &&& e->Start_total_files > 0 ==> after.total == e->Start_total_files
            &&& e->Start_total_files == 0 ==> after.total == 1
            &&& after == (Score { total: after.total, ..s })
        }),
{
    lemma_kinds();
    events_can_be_read_by_their_members(e);
    assert(says_all(event_tree(e@), e));
}

/// The client warns of every file that could not be read, with the file and the
/// reason, and counts nothing for it.
pub proof fn client_warns_of_unreadable_files(s: Score, e: ReindexEvent)
    requires
        e is FileError,
    ensures
        ({
            let (after, reaction) = react(s, event_tree(e@));
            &&& after == s
            &&& reaction matches Reaction::Warn(text) && text == e->FileError_file@ + ": "@
                + e->FileError_message@
        }),
{
    lemma_kinds();
    events_can_be_read_by_their_members(e);
    assert(says_all(event_tree(e@), e));
}

/// The client warns of every batch that failed, with the reason.
pub proof fn client_warns_of_failed_batches(s: Score, e: ReindexEvent)
    requires
        e is BatchError,
    ensures
        ({
            let (after, reaction) = react(s, event_tree(e@));
            &&& after == s
            &&& reaction matches Reaction::Warn(text) && stands_in(e->BatchError_message@, text)
        }),
{
    lemma_kinds();
    events_can_be_read_by_their_members(e);
    assert(says_all(event_tree(e@), e));
    let (after, reaction) = react(s, event_tree(e@));
    if let Reaction::Warn(text) = reaction {
        let head = text_or(event_tree(e@), "file"@, Seq::empty()) + ": "@;
        let m = e->BatchError_message@;
        assert(text =~= head + m + Seq::<char>::empty());
        middle_stands_in_the_whole(head, m, Seq::empty());
    }
}

/// The client moves its progress bar to the number of files that are done, and keeps
/// the length of the bar where none is reported.
pub proof fn client_moves_the_bar(s: Score, e: ReindexEvent)
    requires
        e is Batch || e is Skip,
    ensures
        ({
            let (after, reaction) = react(s, event_tree(e@));
            let done = if e is Batch {
                e->Batch_indexed
            } else {
                e->Skip_indexed
            };
            &&& reaction is Show
            &&& after.position == done
            &&& after.indexed == done
            &&& after.outcome == s.outcome
            &&& e is Skip ==> after.total == s.total && after.chunks == s.chunks
            &&& e is Batch ==> after.skipped == s.skipped
            &&& e is Batch && e->Batch_total_files == 0 ==> after.total == s.total
        }),
{
    lemma_kinds();
    events_can_be_read_by_their_members(e);
    assert(says_all(event_tree(e@), e));
}

/// An event of a kind that the client does not know, and one without a kind, changes
/// nothing; nor does a message that is no JSON. White space around a message does not
/// count.
pub proof fn client_passes_over_what_it_does_not_know(
    s: Score,
    v: JsonTree,
    before: Seq<char>,
    data: Seq<char>,
    after: Seq<char>,
)
    requires
        is_blank(before),
        is_blank(after),
        data.len() > 0,
        !is_white(data[0]),
        !is_white(data.last()),
    ensures
        text_at(v, "event"@) is None ==> react(s, v) == (s, Reaction::Nothing),
        text_at(v, "event"@) matches Some(kind) ==> (kind != "start"@ && kind != "batch"@ && kind
            != "skip"@ && kind != "complete"@ && kind != "error"@ ==> react(s, v) == (
            s,
            Reaction::Nothing,
        )),
        parsed_json(data) is Err ==> react_to_text(s, before + data + after) == (
            s,
            Reaction::Nothing,
        ),
        parsed_json(data) matches Ok(w) ==> react_to_text(s, before + data + after) == react(s, w),
{
    trimming_leaves_the_text(before, data, after);
}

/// Before anything was reported, nothing counts as done.
pub proof fn nothing_is_done_at_first()
    ensures
        !no_outcome().completed,
        no_outcome().indexed == 0,
        no_outcome().total_chunks == 0,
        no_outcome().skipped == 0,
        no_outcome().errors == 0,
        no_outcome().elapsed_ms == 0,
        no_outcome().timings is None,
{
}

/// Counts add up as long as they can be held.
pub proof fn counts_add_up(a: u64, b: u64)
    ensures
        a + b <= u64::MAX ==> wrapped_sum(a, b) == a + b,
        at_least_one(a) >= 1,
        a > 0 ==> at_least_one(a) == a,
{
}

/// What an answer does not hold is replaced by the given value, and only that.
pub proof fn missing_values_are_replaced(v: JsonTree, key: Seq<char>, n: u64, other: u64, t: Seq<char>)
    ensures
        member(v, key) == Some(crate::json::number_tree(n)) ==> number_or(v, key, other) == n,
        member(v, key) is None ==> number_or(v, key, other) == other,
        text_at(v, key) matches Some(s) ==> text_or(v, key, t) == s,
        text_at(v, key) is None ==> text_or(v, key, t) == t,
{
}

// ---------------------------------------------------------------------------
// Figures
// ---------------------------------------------------------------------------

/// The speed is the largest whole number of files per second that was reached.
pub proof fn speed_is_files_per_second(indexed: u64, elapsed_secs: u64)
    ensures
        elapsed_secs == 0 ==> per_second(indexed, elapsed_secs) == 0,
        elapsed_secs > 0 ==> per_second(indexed, elapsed_secs) * elapsed_secs <= indexed < (
        per_second(indexed, elapsed_secs) + 1) * elapsed_secs,
{
    if elapsed_secs > 0 {
        let n = indexed as nat;
        let d = elapsed_secs as nat;
        let q = n / d;
        assert(q * d <= n < (q + 1) * d) by (nonlinear_arith)
            requires
                d > 0,
                q == n / d,
        ;
    }
}

/// The time that is left is that for the files that are left at the present speed;
/// it is not told where there is no speed or nothing is left.
pub proof fn time_left_is_told_where_it_can_be(indexed: u64, total: u64, elapsed_secs: u64)
    ensures
        per_second(indexed, elapsed_secs) == 0 || total <= indexed ==> eta_text(
            indexed,
            total,
            elapsed_secs,
        ) == "?"@,
        per_second(indexed, elapsed_secs) > 0 && total > indexed ==> eta_text(
            indexed,
            total,
            elapsed_secs,
        ) == secs_text((total - indexed) as nat / per_second(indexed, elapsed_secs)),
{
}

/// The figures tell the files, the chunks, the skipped files, the time that has
/// passed and the time that is left.
pub proof fn figures_are_told(
    indexed: u64,
    total: u64,
    chunks: u64,
    skipped: u64,
    elapsed_secs: u64,
    elapsed: Seq<char>,
)
    ensures
        ({
            let s = stats_text(indexed, total, chunks, skipped, elapsed_secs, elapsed);
            &&& stands_in(
                "Files: "@ + grouped(decimal(indexed as nat)) + "/"@ + grouped(
                    decimal(total as nat),
                ),
                s,
            )
            &&& stands_in("Chunks: "@ + grouped(decimal(chunks as nat)), s)
            &&& stands_in("Skipped: "@ + grouped(decimal(skipped as nat)), s)
            &&& stands_in("Speed: "@ + decimal(per_second(indexed, elapsed_secs)), s)
            &&& stands_in("Elapsed: "@ + elapsed, s)
            &&& stands_in("ETA: "@ + eta_text(indexed, total, elapsed_secs), s)
        }),
{
    reveal_strlit("  Chunks: ");
    reveal_strlit("Chunks: ");
    reveal_strlit("  Skipped: ");
    reveal_strlit("Skipped: ");
    reveal_strlit("  Speed: ");
    reveal_strlit("Speed: ");
    reveal_strlit(" files/s  Elapsed: ");
    reveal_strlit(" files/s  ");
    reveal_strlit("Elapsed: ");
    reveal_strlit("  ETA: ");
    reveal_strlit("ETA: ");
    reveal_strlit("  ");
    assert("  Chunks: "@ =~= "  "@ + "Chunks: "@);
    assert("  Skipped: "@ =~= "  "@ + "Skipped: "@);
    assert("  Speed: "@ =~= "  "@ + "Speed: "@);
    assert(" files/s  Elapsed: "@ =~= " files/s  "@ + "Elapsed: "@);
    assert("  ETA: "@ =~= "  "@ + "ETA: "@);
    let s = stats_text(indexed, total, chunks, skipped, elapsed_secs, elapsed);
    let files = "Files: "@ + grouped(decimal(indexed as nat)) + "/"@ + grouped(
        decimal(total as nat),
    );
    let c = "Chunks: "@ + grouped(decimal(chunks as nat));
    let k = "Skipped: "@ + grouped(decimal(skipped as nat));
    let v = "Speed: "@ + decimal(per_second(indexed, elapsed_secs));
    let t = "Elapsed: "@ + elapsed;
    let e = "ETA: "@ + eta_text(indexed, total, elapsed_secs);
    let gap = "  "@;
    let none = Seq::<char>::empty();
    let whole = files + gap + c + gap + k + gap + v + " files/s  "@ + t + gap + e;
    assert(s =~= whole);
    let r1 = gap + c + gap + k + gap + v + " files/s  "@ + t + gap + e;
    assert(whole =~= none + files + r1);
    middle_stands_in_the_whole(none, files, r1);
    let r2 = gap + k + gap + v + " files/s  "@ + t + gap + e;
    assert(whole =~= (files + gap) + c + r2);
    middle_stands_in_the_whole(files + gap, c, r2);
    let r3 = gap + v + " files/s  "@ + t + gap + e;
    assert(whole =~= (files + gap + c + gap) + k + r3);
    middle_stands_in_the_whole(files + gap + c + gap, k, r3);
    let r4 = " files/s  "@ + t + gap + e;
    assert(whole =~= (files + gap + c + gap + k + gap) + v + r4);
    middle_stands_in_the_whole(files + gap + c + gap + k + gap, v, r4);
    let r5 = gap + e;
    let h5 = files + gap + c + gap + k + gap + v + " files/s  "@;
    assert(whole =~= h5 + t + r5);
    middle_stands_in_the_whole(h5, t, r5);
    assert(whole =~= (h5 + t + gap) + e + none);
    middle_stands_in_the_whole(h5 + t + gap, e, none);
}

/// A file that was not skipped counts as changed.
pub proof fn changed_files_were_not_skipped(o: ReindexOutcome)
    ensures
        o.skipped <= o.indexed ==> changed_files(o) + o.skipped == o.indexed,
        o.skipped > o.indexed ==> changed_files(o) == 0,
{
}

/// What stands between pieces stands in the whole: pieces `a` to `e` with texts
/// around them.
proof fn lemma_pieces(
    s: Seq<char>,
    t0: Seq<char>,
    a: Seq<char>,
    t1: Seq<char>,
    b: Seq<char>,
    t2: Seq<char>,
    c: Seq<char>,
    t3: Seq<char>,
    d: Seq<char>,
    t4: Seq<char>,
    e: Seq<char>,
    t5: Seq<char>,
)
    requires
        s == t0 + a + t1 + b + t2 + c + t3 + d + t4 + e + t5,
    ensures
        stands_in(a, s),
        stands_in(b, s),
        stands_in(c, s),
        stands_in(d, s),
        stands_in(e, s),
{
    let r4 = t5;
    let r3 = t4 + e + t5;
    let r2 = t3 + d + r3;
    let r1 = t2 + c + r2;
    let r0 = t1 + b + r1;
    let h1 = t0 + a + t1;
    let h2 = h1 + b + t2;
    let h3 = h2 + c + t3;
    let h4 = h3 + d + t4;
    assert(s =~= h4 + e + r4);
    middle_stands_in_the_whole(h4, e, r4);
    assert(s =~= h3 + d + r3);
    middle_stands_in_the_whole(h3, d, r3);
    assert(s =~= h2 + c + r2);
    middle_stands_in_the_whole(h2, c, r2);
    assert(s =~= h1 + b + r1);
    middle_stands_in_the_whole(h1, b, r1);
    assert(s =~= t0 + a + r0);
    middle_stands_in_the_whole(t0, a, r0);
}

/// The headline of a reindex names its chunks and the time it took; where there were
/// errors it names their number, and where nothing has changed, the index.
pub proof fn headline_tells_what_happened(o: ReindexOutcome, index_id: Seq<char>)
    ensures
        stands_in(grouped(decimal(o.total_chunks as nat)), headline_text(o, index_id)),
        stands_in(elapsed_text(o.elapsed_ms as nat), headline_text(o, index_id)),
        o.errors > 0 ==> stands_in(decimal(o.errors as nat), headline_text(o, index_id)),
        o.errors == 0 && changed_files(o) == 0 && o.indexed > 0 ==> stands_in(
            index_id,
            headline_text(o, index_id),
        ),
        o.errors > 0 || changed_files(o) > 0 ==> stands_in(
            grouped(decimal(changed_files(o))),
            headline_text(o, index_id),
        ) && stands_in(grouped(decimal(o.skipped as nat)), headline_text(o, index_id)),
{
    let changed = changed_files(o);
    let g = grouped(decimal(changed));
    let chunks = grouped(decimal(o.total_chunks as nat));
    let skipped = grouped(decimal(o.skipped as nat));
    let elapsed = elapsed_text(o.elapsed_ms as nat);
    let none = Seq::<char>::empty();
    let s = headline_text(o, index_id);
    if o.errors > 0 {
        lemma_pieces(
            s,
            "Indexed "@,
            g,
            " files → "@,
            chunks,
            " chunks  [took "@,
            elapsed,
            ", "@,
            decimal(o.errors as nat),
            " errors, "@,
            skipped,
            " unchanged]"@,
        );
    } else if changed == 0 && o.indexed > 0 {
        let files = grouped(decimal(o.indexed as nat));
        assert(s + none + none =~= s);
        lemma_pieces(
            s,
            "'"@,
            index_id,
            "' is up to date ("@,
            chunks,
            " chunks, "@,
            files,
            " files — no changes detected)  [took "@,
            elapsed,
            "]"@,
            none,
            none,
        );
    } else {
        let plural = if changed == 1 {
            ""@
        } else {
            "s"@
        };
        assert("Indexed "@ + g + " changed file"@ + plural + " → "@ + chunks =~= "Indexed "@ + g + (
        " changed file"@ + plural + " → "@) + chunks);
        assert(s + none + none =~= s);
        lemma_pieces(
            s,
            "Indexed "@,
            g,
            " changed file"@ + plural + " → "@,
            chunks,
            " chunks  [took "@,
            elapsed,
            ", "@,
            skipped,
            " unchanged]"@,
            none,
            none,
        );
    }
}

/// Each of the four stages has a line with the time that it took and what came of it;
/// one more line warns where there are chunks and no vector at all, and only there.
pub proof fn every_stage_has_its_line(t: StageTimings, total_chunks: u64)
    ensures
        stage_texts(t, total_chunks).len() == (if t.vector_count == 0 && total_chunks > 0 {
            5int
        } else {
            4int
        }),
        stands_in(padded(elapsed_text(t.parse_ms as nat), 7), stage_texts(t, total_chunks)[0]),
        stands_in(grouped(decimal(total_chunks as nat)), stage_texts(t, total_chunks)[0]),
        stands_in(padded(elapsed_text(t.embed_ms as nat), 7), stage_texts(t, total_chunks)[1]),
        stands_in(grouped(decimal(t.vector_count as nat)), stage_texts(t, total_chunks)[1]),
        stands_in(padded(elapsed_text(t.bm25_ms as nat), 7), stage_texts(t, total_chunks)[2]),
        stands_in(padded(elapsed_text(t.kg_ms as nat), 7), stage_texts(t, total_chunks)[3]),
        stands_in(grouped(decimal(t.symbol_count as nat)), stage_texts(t, total_chunks)[3]),
        stands_in(grouped(decimal(t.edge_count as nat)), stage_texts(t, total_chunks)[3]),
{
    let all = stage_texts(t, total_chunks);
    let none = Seq::<char>::empty();
    let a = padded(elapsed_text(t.parse_ms as nat), 7);
    let n = grouped(decimal(total_chunks as nat));
    let at = "  ("@ + n + " chunks)"@;
    assert(all[0] =~= "Parse+chunk: "@ + a + at);
    middle_stands_in_the_whole("Parse+chunk: "@, a, at);
    assert(all[0] =~= ("Parse+chunk: "@ + a + "  ("@) + n + " chunks)"@);
    middle_stands_in_the_whole("Parse+chunk: "@ + a + "  ("@, n, " chunks)"@);
    let b = padded(elapsed_text(t.embed_ms as nat), 7);
    let v = grouped(decimal(t.vector_count as nat));
    let bt = "  ("@ + v + " vectors)"@;
    assert(all[1] =~= "Embed (HNSW): "@ + b + bt);
    middle_stands_in_the_whole("Embed (HNSW): "@, b, bt);
    assert(all[1] =~= ("Embed (HNSW): "@ + b + "  ("@) + v + " vectors)"@);
    middle_stands_in_the_whole("Embed (HNSW): "@ + b + "  ("@, v, " vectors)"@);
    let c = padded(elapsed_text(t.bm25_ms as nat), 7);
    assert(all[2] =~= "BM25: "@ + c + none);
    middle_stands_in_the_whole("BM25: "@, c, none);
    let d = padded(elapsed_text(t.kg_ms as nat), 7);
    let y = grouped(decimal(t.symbol_count as nat));
    let e = grouped(decimal(t.edge_count as nat));
    let dt = "  ("@ + y + " symbols, "@ + e + " edges)"@;
    assert(all[3] =~= "KG: "@ + d + dt);
    middle_stands_in_the_whole("KG: "@, d, dt);
    let yt = " symbols, "@ + e + " edges)"@;
    assert(all[3] =~= ("KG: "@ + d + "  ("@) + y + yt);
    middle_stands_in_the_whole("KG: "@ + d + "  ("@, y, yt);
    let eh = "KG: "@ + d + "  ("@ + y + " symbols, "@;
    assert(all[3] =~= eh + e + " edges)"@);
    middle_stands_in_the_whole(eh, e, " edges)"@);
}

/// Waiting is given up once as many seconds have passed as were allowed; with zero it
/// never is.
pub proof fn waiting_ends_at_the_limit(timeout_secs: u64, early: u64, late: u64)
    requires
        timeout_secs > 0,
        early < timeout_secs * 1000 <= late,
    ensures
        !past_deadline(timeout_secs, early),
        past_deadline(timeout_secs, late),
        !past_deadline(0, late),
        !ran_out_of_time(None, timeout_secs),
        ran_out_of_time(Some(late), timeout_secs),
        !ran_out_of_time(Some(early), timeout_secs),
{
}

/// Statuses from two hundred to just below three hundred mean success.
pub proof fn two_hundreds_mean_success(status: u16)
    ensures
        is_success(status) <==> status / 100 == 2,
{
}

/// An answer counts as a hit where it lists at least one result, and the index as
/// alive where one of the answers is a hit, whichever it is.
pub proof fn one_hit_is_enough(answers: Seq<Option<String>>, i: int, v: JsonTree, items: Seq<JsonTree>)
    requires
        0 <= i < answers.len(),
        answers[i] is Some,
        parsed_json(answers[i]->0@) == Ok::<JsonTree, Seq<char>>(v),
        member(v, "results"@) == Some(JsonTree::Array(items)),
    ensures
        has_results(answers[i]->0@) <==> items.len() > 0,
        items.len() > 0 ==> any_hit(answers),
{
    if items.len() > 0 {
        assert(answers[i] matches Some(a) && has_results(a@));
    }
}

/// Without any hit the index does not count as alive.
pub proof fn without_a_hit_there_is_none(answers: Seq<Option<String>>)
    requires
        forall|i: int|
            0 <= i < answers.len() ==> ((#[trigger] answers[i]) matches Some(a) ==> !has_results(a@)),
    ensures
        !any_hit(answers),
{
}

/// The number of chunks is the one that the answer reports; how many there were before
/// is told where it is known.
pub proof fn chunks_are_as_reported(answer: Seq<char>, v: JsonTree, n: u64)
    requires
        parsed_json(answer) == Ok::<JsonTree, Seq<char>>(v),
        member(v, "chunk_count"@) == Some(crate::json::number_tree(n)),
    ensures
        reported_chunks(answer) == Some(n),
        number_at(v, "chunk_count"@) == n,
        was_text(None).len() == 0,
        stands_in(grouped(decimal(n as nat)), was_text(Some(n))),
{
    middle_stands_in_the_whole(" (was "@, grouped(decimal(n as nat)), ")"@);
}

// ---------------------------------------------------------------------------
// Finding the daemon
// ---------------------------------------------------------------------------

/// White space around a number in a file does not count; a number that is too large
/// does not count at all.
pub proof fn numbers_in_files_are_read(before: Seq<char>, n: nat, after: Seq<char>, max: nat)
    requires
        is_blank(before),
        is_blank(after),
    ensures
        n <= max ==> number_in(Some(before + decimal(n) + after), max) == Some(n),
        n > max ==> number_in(Some(before + decimal(n) + after), max) is None,
        number_in(None, max) is None,
        n <= u16::MAX ==> port_in(Some(before + decimal(n) + after)) == Some(n as u16),
        n > u16::MAX ==> port_in(Some(before + decimal(n) + after)) is None,
        n <= u32::MAX ==> pid_in(Some(before + decimal(n) + after)) == Some(n as u32),
        n > u32::MAX ==> pid_in(Some(before + decimal(n) + after)) is None,
{
    numbers_are_read_as_they_are_written(n);
    crate::laws::text::numbers_have_no_white_space(n);
    trimming_leaves_the_text(before, decimal(n), after);
}

/// The daemon's address is that of the address file, without white space around it;
/// where there is none, it is this machine with the port of the port file, or with
/// the usual port.
pub proof fn daemon_is_found_by_address_before_port(
    before: Seq<char>,
    address: Seq<char>,
    after: Seq<char>,
    blank: Seq<char>,
    port: u16,
    other: Option<Seq<char>>,
)
    requires
        is_blank(before),
        is_blank(after),
        is_blank(blank),
        address.len() > 0,
        !is_white(address[0]),
        !is_white(address.last()),
    ensures
        base_url(Some(before + address + after), other) == "http://"@ + address,
        base_url(None, Some(before + decimal(port as nat) + after)) == "http://127.0.0.1:"@ + decimal(
            port as nat,
        ),
        base_url(Some(blank), None) == base_url(None, None),
        base_url(None, None) == "http://127.0.0.1:"@ + decimal(
            crate::commands::daemon_utils::DEFAULT_PORT as nat,
        ),
        address_in(Some(blank)) is None,
{
    trimming_leaves_the_text(before, address, after);
    numbers_in_files_are_read(before, port as nat, after, u16::MAX as nat);
    crate::laws::text::blank_texts_are_trimmed_away(blank);
    assert(local_url(port) == "http://127.0.0.1:"@ + decimal(port as nat));
}

/// The port that was asked for goes before the one in the port file.
pub proof fn asked_port_goes_first(port: u16, file: Option<Seq<char>>)
    ensures
        ui_port(Some(port), file) == port,
        port_in(file) matches Some(p) ==> ui_port(None, file) == p,
        port_in(file) is None ==> ui_port(None, file)
            == crate::commands::daemon_utils::DEFAULT_PORT,
{
}

} // verus!
