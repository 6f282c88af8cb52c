//! Following a reindex from the command line.
//!
//! The daemon reports events as JSON; the client keeps score, shows it, and in
//! the end says what came of the reindex.
use crate::commands::format::{
    elapsed_text, fmt_elapsed, fmt_secs, format_with_commas, grouped, pad_left, padded, secs_text,
};
use crate::json::{
    as_items, as_number, compact_json, compact_text, empty_members, get_member, items_of, json_bool,
    json_number, json_object, json_text, json_view, member, no_members, number_at, number_of,
    number_tree, parse_json, parse_or_empty, parsed_json, parsed_or_empty, read_number,
    read_text, set_member, text_at, JsonTree,
};
use crate::service::events::{event_tree, EventView, ReindexTotals};
use crate::text::{concat, decimal, decimal_text, same_text, texts, trim, trim_spec};
use vstd::prelude::*;
use vstd::string::*;

verus! {

// ---------------------------------------------------------------------------
// Options and outcome
// ---------------------------------------------------------------------------

/// How a reindex is run.
#[derive(Debug, Clone, Copy, PartialEq, Eq, Structural)]
pub struct ReindexOptions {
    /// Whether the index is tried out afterwards.
    pub verify_after: bool,
    /// The number of chunks before, where it is known.
    pub prior_chunk_count: Option<u64>,
    /// Whether unchanged files are indexed again too.
    pub force: bool,
    /// Seconds to wait for the end; zero means to wait without limit.
    pub timeout_secs: u64,
}

impl Default for ReindexOptions {
    fn default() -> (o: ReindexOptions)
        ensures
            o == (ReindexOptions {
                verify_after: false,
                prior_chunk_count: None,
                force: false,
                timeout_secs: 600,
            }),
    {
        ReindexOptions {
            verify_after: false,
            prior_chunk_count: None,
            force: false,
            timeout_secs: 600,
        }
    }
}

impl ReindexOptions {
    /// A plain reindex with a time limit.
    pub fn plain(timeout_secs: u64) -> (o: ReindexOptions)
        ensures
            o == (ReindexOptions {
                verify_after: false,
                prior_chunk_count: None,
                force: false,
                timeout_secs,
            }),
    {
        ReindexOptions { verify_after: false, prior_chunk_count: None, force: false, timeout_secs }
    }

    /// A reindex of every file, tried out afterwards.
    pub fn forced(prior_chunk_count: Option<u64>, timeout_secs: u64) -> (o: ReindexOptions)
        ensures
            o == (ReindexOptions {
                verify_after: true,
                prior_chunk_count,
                force: true,
                timeout_secs,
            }),
    {
        ReindexOptions { verify_after: true, prior_chunk_count, force: true, timeout_secs }
    }
}

/// Milliseconds and counts of each stage, as reported.
#[derive(Debug, Clone, Copy, PartialEq, Eq, Structural)]
pub struct StageTimings {
    pub parse_ms: u64,
    pub embed_ms: u64,
    pub bm25_ms: u64,
    pub vector_upsert_ms: u64,
    pub kg_ms: u64,
    pub vector_count: u64,
    pub symbol_count: u64,
    pub edge_count: u64,
}

/// What came of a reindex.
#[derive(Debug, Clone, Copy, PartialEq, Eq, Structural)]
pub struct ReindexOutcome {
    pub indexed: u64,
    pub total_chunks: u64,
    pub skipped: u64,
    pub errors: u64,
    pub elapsed_ms: u64,
    pub completed: bool,
    pub timings: Option<StageTimings>,
}

/// What is known before anything was reported.
pub open spec fn no_outcome() -> ReindexOutcome {
    ReindexOutcome {
        indexed: 0,
        total_chunks: 0,
        skipped: 0,
        errors: 0,
        elapsed_ms: 0,
        completed: false,
        timings: None,
    }
}

// ---------------------------------------------------------------------------
// Keeping score
// ---------------------------------------------------------------------------

/// What is known of a running reindex.
#[derive(Debug, Clone, Copy, PartialEq, Eq, Structural)]
pub struct Score {
    /// The length of the progress bar.
    pub total: u64,
    /// Where the progress bar stands.
    pub position: u64,
    pub indexed: u64,
    pub chunks: u64,
    pub skipped: u64,
    pub outcome: ReindexOutcome,
}

/// What an event calls for.
#[verifier::ext_equal]
pub enum Reaction {
    /// Nothing.
    Nothing,
    /// The figures changed: show them.
    Show,
    /// A warning with this text.
    Warn(Seq<char>),
    /// The reindex is over.
    Over,
}

/// The sum, starting over at zero past the largest number.
pub open spec fn wrapped_sum(a: u64, b: u64) -> u64 {
    ((a as int + b as int) % 0x1_0000_0000_0000_0000) as u64
}

/// One where the number is zero, else the number.
pub open spec fn at_least_one(n: u64) -> u64 {
    if n == 0 {
        1
    } else {
        n
    }
}

/// The stage timings that an event carries.
pub open spec fn timings_in(v: JsonTree) -> Option<StageTimings> {
    match member(v, "timings"@) {
        Some(t) => Some(
            StageTimings {
                parse_ms: number_at(t, "parse_ms"@),
                embed_ms: number_at(t, "embed_ms"@),
                bm25_ms: number_at(t, "bm25_ms"@),
                vector_upsert_ms: number_at(t, "vector_upsert_ms"@),
                kg_ms: number_at(t, "kg_ms"@),
                vector_count: number_at(t, "vector_count"@),
                symbol_count: number_at(t, "symbol_count"@),
                edge_count: number_at(t, "edge_count"@),
            },
        ),
        None => None,
    }
}

/// The number under `key`, or another where there is none.
pub open spec fn number_or(v: JsonTree, key: Seq<char>, other: u64) -> u64 {
    match member(v, key) {
        Some(m) => match number_of(m) {
            Some(n) => n,
            None => other,
        },
        None => other,
    }
}

/// The text under `key`, or another where there is none.
pub open spec fn text_or(v: JsonTree, key: Seq<char>, other: Seq<char>) -> Seq<char> {
    match text_at(v, key) {
        Some(s) => s,
        None => other,
    }
}

/// The score after an event, and what the event calls for.
pub open spec fn react(s: Score, v: JsonTree) -> (Score, Reaction) {
    match text_at(v, "event"@) {
        Some(kind) => if kind == "start"@ {
            (Score { total: at_least_one(number_at(v, "total_files"@)), ..s }, Reaction::Nothing)
        } else if kind == "batch"@ {
            let indexed = number_at(v, "indexed"@);
            let total = number_at(v, "total_files"@);
            (
                Score {
                    total: if total > 0 {
                        total
                    } else {
                        s.total
                    },
                    position: indexed,
                    indexed,
                    chunks: wrapped_sum(s.chunks, number_at(v, "batch_chunks"@)),
                    ..s
                },
                Reaction::Show,
            )
        } else if kind == "skip"@ {
            let indexed = number_at(v, "indexed"@);
            (
                Score {
                    position: indexed,
                    indexed,
                    skipped: wrapped_sum(s.skipped, 1),
                    ..s
                },
                Reaction::Show,
            )
        } else if kind == "complete"@ {
            let indexed = number_at(v, "indexed"@);
            (
                Score {
                    position: indexed,
                    outcome: ReindexOutcome {
                        indexed,
                        total_chunks: number_at(v, "total_chunks"@),
                        skipped: number_or(v, "skipped"@, s.skipped),
                        errors: number_at(v, "errors"@),
                        elapsed_ms: number_at(v, "elapsed_ms"@),
                        completed: true,
                        timings: match timings_in(v) {
                            Some(t) => Some(t),
                            None => s.outcome.timings,
                        },
                    },
                    ..s
                },
                Reaction::Over,
            )
        } else if kind == "error"@ {
            (
                s,
                Reaction::Warn(
                    text_or(v, "file"@, Seq::empty()) + ": "@ + text_or(
                        v,
                        "message"@,
                        "unknown"@,
                    ),
                ),
            )
        } else {
            (s, Reaction::Nothing)
        },
        None => (s, Reaction::Nothing),
    }
}

/// The score after a message of the stream: one that is no JSON is passed over.
pub open spec fn react_to_text(s: Score, data: Seq<char>) -> (Score, Reaction) {
    match parsed_json(trim_spec(data)) {
        Ok(v) => react(s, v),
        Err(_) => (s, Reaction::Nothing),
    }
}

/// What an event calls for.
pub enum ClientAction {
    Nothing,
    Show,
    Warn(String),
    Over,
}

impl View for ClientAction {
    type V = Reaction;

    open spec fn view(&self) -> Reaction {
        match *self {
            ClientAction::Nothing => Reaction::Nothing,
            ClientAction::Show => Reaction::Show,
            ClientAction::Warn(s) => Reaction::Warn(s@),
            ClientAction::Over => Reaction::Over,
        }
    }
}

fn read_timings(v: &serde_json::Value) -> (t: Option<StageTimings>)
    ensures
        t == timings_in(json_view(*v)),
{
    match get_member(v, "timings") {
        Some(t) => Some(
            StageTimings {
                parse_ms: read_number(t, "parse_ms"),
                embed_ms: read_number(t, "embed_ms"),
                bm25_ms: read_number(t, "bm25_ms"),
                vector_upsert_ms: read_number(t, "vector_upsert_ms"),
                kg_ms: read_number(t, "kg_ms"),
                vector_count: read_number(t, "vector_count"),
                symbol_count: read_number(t, "symbol_count"),
                edge_count: read_number(t, "edge_count"),
            },
        ),
        None => None,
    }
}

fn read_number_or(v: &serde_json::Value, key: &str, other: u64) -> (n: u64)
    ensures
        n == number_or(json_view(*v), key@, other),
{
    match get_member(v, key) {
        Some(m) => match as_number(m) {
            Some(n) => n,
            None => other,
        },
        None => other,
    }
}

fn wrapping_sum(a: u64, b: u64) -> (r: u64)
    ensures
        r == wrapped_sum(a, b),
{
    let sum: u128 = a as u128 + b as u128;
    if sum >= 0x1_0000_0000_0000_0000 {
        (sum - 0x1_0000_0000_0000_0000) as u64
    } else {
        sum as u64
    }
}

impl Score {
    /// The score before anything was reported.
    pub fn new() -> (s: Score)
        ensures
            s == (Score {
                total: 1,
                position: 0,
                indexed: 0,
                chunks: 0,
                skipped: 0,
                outcome: no_outcome(),
            }),
    {
        Score {
            total: 1,
            position: 0,
            indexed: 0,
            chunks: 0,
            skipped: 0,
            outcome: ReindexOutcome {
                indexed: 0,
                total_chunks: 0,
                skipped: 0,
                errors: 0,
                elapsed_ms: 0,
                completed: false,
                timings: None,
            },
        }
    }

    /// Takes note of one message of the stream.
    pub fn on_message(&mut self, data: &str) -> (a: ClientAction)
        ensures
            (*final(self), a@) == react_to_text(*old(self), data@),
    {
        let text = trim(data);
        match parse_json(text.as_str()) {
            Ok(v) => self.on_event(&v),
            Err(_) => ClientAction::Nothing,
        }
    }

    /// Takes note of one event.
    pub fn on_event(&mut self, v: &serde_json::Value) -> (a: ClientAction)
        ensures
            (*final(self), a@) == react(*old(self), json_view(*v)),
    {
        let kind = match read_text(v, "event") {
            Some(k) => k,
            None => return ClientAction::Nothing,
        };
        if same_text(kind, "start") {
            let total: u64 = read_number(v, "total_files");
            self.total = if total == 0 {
                1
            } else {
                total
            };
            ClientAction::Nothing
        } else if same_text(kind, "batch") {
            let indexed: u64 = read_number(v, "indexed");
            let total: u64 = read_number(v, "total_files");
            if total > 0 {
                self.total = total;
            }
            self.position = indexed;
            self.indexed = indexed;
            self.chunks = wrapping_sum(self.chunks, read_number(v, "batch_chunks"));
            ClientAction::Show
        } else if same_text(kind, "skip") {
            let indexed: u64 = read_number(v, "indexed");
            self.position = indexed;
            self.indexed = indexed;
            self.skipped = wrapping_sum(self.skipped, 1);
            ClientAction::Show
        } else if same_text(kind, "complete") {
            let indexed: u64 = read_number(v, "indexed");
            let timings = match read_timings(v) {
                Some(t) => Some(t),
                None => self.outcome.timings,
            };
            self.outcome = ReindexOutcome {
                indexed,
                total_chunks: read_number(v, "total_chunks"),
                skipped: read_number_or(v, "skipped", self.skipped),
                errors: read_number(v, "errors"),
                elapsed_ms: read_number(v, "elapsed_ms"),
                completed: true,
                timings,
            };
            self.position = indexed;
            ClientAction::Over
        } else if same_text(kind, "error") {
            let file = match read_text(v, "file") {
                Some(f) => f.to_owned(),
                None => String::new(),
            };
            let message = match read_text(v, "message") {
                Some(m) => m.to_owned(),
                None => "unknown".to_owned(),
            };
            let head = concat(file.as_str(), ": ");
            ClientAction::Warn(concat(head.as_str(), message.as_str()))
        } else {
            ClientAction::Nothing
        }
    }

    /// The line of figures while the reindex runs. Where `plain_seconds` is set
    /// the time that has passed is shown in seconds only.
    pub fn stats_line(&self, elapsed_secs: u64, plain_seconds: bool) -> (s: String)
        ensures
            s@ == stats_text(
                self.indexed,
                self.total,
                self.chunks,
                self.skipped,
                elapsed_secs,
                if plain_seconds {
                    decimal(elapsed_secs as nat) + "s"@
                } else {
                    secs_text(elapsed_secs as nat)
                },
            ),
    {
        let per_sec: u64 = if elapsed_secs == 0 {
            0
        } else {
            self.indexed / elapsed_secs
        };
        let eta = if per_sec > 0 && self.total > self.indexed {
            fmt_secs((self.total - self.indexed) / per_sec)
        } else {
            "?".to_owned()
        };
        let elapsed = if plain_seconds {
            concat(decimal_text(elapsed_secs).as_str(), "s")
        } else {
            fmt_secs(elapsed_secs)
        };
        let mut s = "Files: ".to_owned();
        s.append(format_with_commas(self.indexed).as_str());
        s.append("/");
        s.append(format_with_commas(self.total).as_str());
        s.append("  Chunks: ");
        s.append(format_with_commas(self.chunks).as_str());
        s.append("  Skipped: ");
        s.append(format_with_commas(self.skipped).as_str());
        s.append("  Speed: ");
        s.append(decimal_text(per_sec).as_str());
        s.append(" files/s  Elapsed: ");
        s.append(elapsed.as_str());
        s.append("  ETA: ");
        s.append(eta.as_str());
        s
    }
}

/// Files per second, zero where no second has passed.
pub open spec fn per_second(indexed: u64, elapsed_secs: u64) -> nat {
    if elapsed_secs == 0 {
        0
    } else {
        indexed as nat / elapsed_secs as nat
    }
}

/// The time that is left at the present speed, where that can be told.
pub open spec fn eta_text(indexed: u64, total: u64, elapsed_secs: u64) -> Seq<char> {
    let speed = per_second(indexed, elapsed_secs);
    if speed > 0 && total > indexed {
        secs_text((total - indexed) as nat / speed)
    } else {
        "?"@
    }
}

/// The line of figures while a reindex runs.
pub open spec fn stats_text(
    indexed: u64,
    total: u64,
    chunks: u64,
    skipped: u64,
    elapsed_secs: u64,
    elapsed: Seq<char>,
) -> Seq<char> {
    "Files: "@ + grouped(decimal(indexed as nat)) + "/"@ + grouped(decimal(total as nat))
        + "  Chunks: "@ + grouped(decimal(chunks as nat)) + "  Skipped: "@ + grouped(
        decimal(skipped as nat),
    ) + "  Speed: "@ + decimal(per_second(indexed, elapsed_secs)) + " files/s  Elapsed: "@ + elapsed
        + "  ETA: "@ + eta_text(indexed, total, elapsed_secs)
}

// ---------------------------------------------------------------------------
// The end
// ---------------------------------------------------------------------------

/// Files that were not skipped.
pub open spec fn changed_files(o: ReindexOutcome) -> nat {
    if o.indexed > o.skipped {
        (o.indexed - o.skipped) as nat
    } else {
        0
    }
}

/// The headline of a completed reindex.
pub open spec fn headline_text(o: ReindexOutcome, index_id: Seq<char>) -> Seq<char> {
    let changed = changed_files(o);
    let chunks = grouped(decimal(o.total_chunks as nat));
    let skipped = grouped(decimal(o.skipped as nat));
    let elapsed = elapsed_text(o.elapsed_ms as nat);
    if o.errors > 0 {
        "Indexed "@ + grouped(decimal(changed)) + " files → "@ + chunks + " chunks  [took "@
            + elapsed + ", "@ + decimal(o.errors as nat) + " errors, "@ + skipped + " unchanged]"@
    } else if changed == 0 && o.indexed > 0 {
        "'"@ + index_id + "' is up to date ("@ + chunks + " chunks, "@ + grouped(
            decimal(o.indexed as nat),
        ) + " files — no changes detected)  [took "@ + elapsed + "]"@
    } else {
        "Indexed "@ + grouped(decimal(changed)) + " changed file"@ + (if changed == 1 {
            ""@
        } else {
            "s"@
        }) + " → "@ + chunks + " chunks  [took "@ + elapsed + ", "@ + skipped + " unchanged]"@
    }
}

/// The headline of a completed reindex: how many files changed, that none did,
/// or how many failed.
pub fn headline(o: &ReindexOutcome, index_id: &str) -> (s: String)
    ensures
        s@ == headline_text(*o, index_id@),
{
    let changed: u64 = if o.indexed > o.skipped {
        o.indexed - o.skipped
    } else {
        0
    };
    let chunks = format_with_commas(o.total_chunks);
    let skipped = format_with_commas(o.skipped);
    let elapsed = fmt_elapsed(o.elapsed_ms);
    let many = format_with_commas(changed);
    if o.errors > 0 {
        let mut s = "Indexed ".to_owned();
        s.append(many.as_str());
        s.append(" files → ");
        s.append(chunks.as_str());
        s.append(" chunks  [took ");
        s.append(elapsed.as_str());
        s.append(", ");
        s.append(decimal_text(o.errors).as_str());
        s.append(" errors, ");
        s.append(skipped.as_str());
        s.append(" unchanged]");
        s
    } else if changed == 0 && o.indexed > 0 {
        let mut s = "'".to_owned();
        s.append(index_id);
        s.append("' is up to date (");
        s.append(chunks.as_str());
        s.append(" chunks, ");
        s.append(format_with_commas(o.indexed).as_str());
        s.append(" files — no changes detected)  [took ");
        s.append(elapsed.as_str());
        s.append("]");
        s
    } else {
        let mut s = "Indexed ".to_owned();
        s.append(many.as_str());
        s.append(" changed file");
        s.append(if changed == 1 {
            ""
        } else {
            "s"
        });
        s.append(" → ");
        s.append(chunks.as_str());
        s.append(" chunks  [took ");
        s.append(elapsed.as_str());
        s.append(", ");
        s.append(skipped.as_str());
        s.append(" unchanged]");
        s
    }
}

/// How following a reindex ended.
pub enum Conclusion {
    /// The time limit passed; the daemon goes on.
    TimedOut(String),
    /// The stream ended before the reindex did.
    Incomplete(String),
    /// The reindex ended: its headline, and the lines on its stages where they
    /// were reported.
    Finished { headline: String, stages: Vec<String> },
}

/// Whether the time limit of a reindex has passed; a limit of zero never does.
pub open spec fn past_deadline(timeout_secs: u64, elapsed_ms: u64) -> bool {
    timeout_secs > 0 && elapsed_ms >= timeout_secs * 1000
}

/// Whether the time limit of a reindex has passed; a limit of zero never does.
pub fn deadline_passed(timeout_secs: u64, elapsed_ms: u64) -> (r: bool)
    ensures
        r == past_deadline(timeout_secs, elapsed_ms),
{
    timeout_secs > 0 && elapsed_ms as u128 >= timeout_secs as u128 * 1000
}

/// Whether waiting for a reindex was given up because its time limit had passed.
pub open spec fn ran_out_of_time(gave_up_ms: Option<u64>, timeout_secs: u64) -> bool {
    gave_up_ms matches Some(ms) && past_deadline(timeout_secs, ms)
}

/// How following a reindex ended. `gave_up_ms` says after how long waiting was
/// given up, where it was and the stream was still open: a reindex that had not
/// ended within its time limit timed out, and the daemon goes on with it.
pub fn conclude(
    o: &ReindexOutcome,
    gave_up_ms: Option<u64>,
    timeout_secs: u64,
    index_id: &str,
) -> (c: Conclusion)
    ensures
        match c {
            Conclusion::TimedOut(s) => !o.completed && ran_out_of_time(gave_up_ms, timeout_secs)
                && s@ == "trusty-search index timed out after "@ + decimal(timeout_secs as nat)
                + "s — continuing; re-run later if needed"@,
            Conclusion::Incomplete(s) => !o.completed && !ran_out_of_time(gave_up_ms, timeout_secs)
                && s@ == "Reindex stream ended without completion event"@,
            Conclusion::Finished { headline, stages } => o.completed && headline@
                == headline_text(*o, index_id@) && texts(stages@) == (match o.timings {
                Some(t) => stage_texts(t, o.total_chunks),
                None => Seq::empty(),
            }),
        },
{
    let late = match gave_up_ms {
        Some(ms) => deadline_passed(timeout_secs, ms),
        None => false,
    };
    if !o.completed && late {
        let mut s = "trusty-search index timed out after ".to_owned();
        s.append(decimal_text(timeout_secs).as_str());
        s.append("s — continuing; re-run later if needed");
        return Conclusion::TimedOut(s);
    }
    if !o.completed {
        return Conclusion::Incomplete("Reindex stream ended without completion event".to_owned());
    }
    let stages = match &o.timings {
        Some(t) => timing_breakdown(t, o.total_chunks),
        None => {
            let none: Vec<String> = Vec::new();
            assert(texts(none@) =~= Seq::empty());
            none
        },
    };
    Conclusion::Finished { headline: headline(o, index_id), stages }
}

/// What a command that followed a reindex comes to: an error where the stream
/// ended too early, and otherwise what is known of the reindex, which need not be
/// over where the time limit passed.
pub fn reindex_result(o: &ReindexOutcome, c: &Conclusion) -> (r: Result<ReindexOutcome, String>)
    ensures
        match r {
            Ok(known) => !(c is Incomplete) && known == *o,
            Err(s) => c is Incomplete && s@ == "reindex did not complete"@,
        },
{
    match c {
        Conclusion::Incomplete(_) => Err("reindex did not complete".to_owned()),
        _ => Ok(*o),
    }
}

/// The lines on the stages of a reindex: one for each of the four and, where
/// there are chunks without a single vector, a warning that the embedder was not
/// there.
pub open spec fn stage_texts(t: StageTimings, total_chunks: u64) -> Seq<Seq<char>> {
    let stages = seq![
        "Parse+chunk: "@ + padded(elapsed_text(t.parse_ms as nat), 7) + "  ("@ + grouped(
            decimal(total_chunks as nat),
        ) + " chunks)"@,
        "Embed (HNSW): "@ + padded(elapsed_text(t.embed_ms as nat), 7) + "  ("@ + grouped(
            decimal(t.vector_count as nat),
        ) + " vectors)"@,
        "BM25: "@ + padded(elapsed_text(t.bm25_ms as nat), 7),
        "KG: "@ + padded(elapsed_text(t.kg_ms as nat), 7) + "  ("@ + grouped(
            decimal(t.symbol_count as nat),
        ) + " symbols, "@ + grouped(decimal(t.edge_count as nat)) + " edges)"@,
    ];
    if t.vector_count == 0 && total_chunks > 0 {
        stages.push("Embed (HNSW): SKIPPED (embedder unavailable — BM25-only mode)"@)
    } else {
        stages
    }
}

/// The lines on the stages of a reindex.
pub fn timing_breakdown(t: &StageTimings, total_chunks: u64) -> (lines: Vec<String>)
    ensures
        texts(lines@) == stage_texts(*t, total_chunks),
{
    let mut parse = "Parse+chunk: ".to_owned();
    parse.append(pad_left(fmt_elapsed(t.parse_ms).as_str(), 7).as_str());
    parse.append("  (");
    parse.append(format_with_commas(total_chunks).as_str());
    parse.append(" chunks)");
    let mut embed = "Embed (HNSW): ".to_owned();
    embed.append(pad_left(fmt_elapsed(t.embed_ms).as_str(), 7).as_str());
    embed.append("  (");
    embed.append(format_with_commas(t.vector_count).as_str());
    embed.append(" vectors)");
    let mut bm25 = "BM25: ".to_owned();
    bm25.append(pad_left(fmt_elapsed(t.bm25_ms).as_str(), 7).as_str());
    let mut kg = "KG: ".to_owned();
    kg.append(pad_left(fmt_elapsed(t.kg_ms).as_str(), 7).as_str());
    kg.append("  (");
    kg.append(format_with_commas(t.symbol_count).as_str());
    kg.append(" symbols, ");
    kg.append(format_with_commas(t.edge_count).as_str());
    kg.append(" edges)");
    let mut lines: Vec<String> = Vec::new();
    lines.push(parse);
    lines.push(embed);
    lines.push(bm25);
    lines.push(kg);
    if t.vector_count == 0 && total_chunks > 0 {
        lines.push("Embed (HNSW): SKIPPED (embedder unavailable — BM25-only mode)".to_owned());
    }
    assert(texts(lines@) =~= stage_texts(*t, total_chunks));
    lines
}

// ---------------------------------------------------------------------------
// Talking to the daemon
// ---------------------------------------------------------------------------

/// What the daemon's answer to the request for a reindex means.
#[derive(Debug, Clone, Copy, PartialEq, Eq, Structural)]
pub enum Kickoff {
    /// The reindex is queued.
    Queued,
    /// The daemon does not know the index.
    NotRegistered,
    /// The daemon refused.
    Refused,
}

/// Whether an HTTP status means success.
pub open spec fn is_success(status: u16) -> bool {
    200 <= status < 300
}

/// What the daemon's answer to the request for a reindex means.
pub fn kickoff(status: u16) -> (k: Kickoff)
    ensures
        k == (if status == 404 {
            Kickoff::NotRegistered
        } else if is_success(status) {
            Kickoff::Queued
        } else {
            Kickoff::Refused
        }),
{
    if status == 404 {
        Kickoff::NotRegistered
    } else if 200 <= status && status < 300 {
        Kickoff::Queued
    } else {
        Kickoff::Refused
    }
}

/// What to tell where a reindex was not queued; nothing where it was. `status`
/// is the status line of the answer.
pub fn kickoff_failure(k: Kickoff, index_id: &str, status: &str) -> (r: Option<String>)
    ensures
        match r {
            None => k == Kickoff::Queued,
            Some(s) => match k {
                Kickoff::Queued => false,
                Kickoff::NotRegistered => s@ == "index '"@ + index_id@
                    + "' is not registered on the daemon — run `trusty-search index` first"@,
                Kickoff::Refused => s@ == "daemon returned "@ + status@
                    + " for reindex kickoff"@,
            },
        },
{
    match k {
        Kickoff::Queued => None,
        Kickoff::NotRegistered => {
            let mut s = concat("index '", index_id);
            s.append("' is not registered on the daemon — run `trusty-search index` first");
            Some(s)
        },
        Kickoff::Refused => {
            let mut s = concat("daemon returned ", status);
            s.append(" for reindex kickoff");
            Some(s)
        },
    }
}

/// The request for a reindex.
pub fn kickoff_body(root_path: &str, force: bool) -> (body: String)
    ensures
        body@ == compact_text(
            JsonTree::Object(
                empty_members().insert("root_path"@, JsonTree::Text(root_path@)).insert(
                    "force"@,
                    JsonTree::Bool(force),
                ),
            ),
        ),
{
    let mut m = no_members();
    set_member(&mut m, "root_path", json_text(root_path.to_owned()));
    set_member(&mut m, "force", json_bool(force));
    compact_json(&json_object(m))
}

/// The request for the first result of a word.
pub fn probe_body(word: &str) -> (body: String)
    ensures
        body@ == compact_text(
            JsonTree::Object(
                empty_members().insert("text"@, JsonTree::Text(word@)).insert(
                    "top_k"@,
                    number_tree(1),
                ),
            ),
        ),
{
    let mut m = no_members();
    set_member(&mut m, "text", json_text(word.to_owned()));
    set_member(&mut m, "top_k", json_number(1));
    compact_json(&json_object(m))
}

/// Where the progress of a reindex can be followed: where the daemon's answer
/// says, or at the usual place.
pub fn stream_url(base: &str, index_id: &str, answer: &str) -> (url: String)
    ensures
        url@ == base@ + text_or(
            parsed_or_empty(answer@),
            "stream_url"@,
            "/indexes/"@ + index_id@ + "/reindex/stream"@,
        ),
{
    let v = parse_or_empty(answer);
    let path = match read_text(&v, "stream_url") {
        Some(s) => s.to_owned(),
        None => {
            let head = concat("/indexes/", index_id);
            concat(head.as_str(), "/reindex/stream")
        },
    };
    concat(base, path.as_str())
}

/// The URL of something of an index.
pub fn index_url(base: &str, index_id: &str, what: &str) -> (url: String)
    ensures
        url@ == base@ + "/indexes/"@ + index_id@ + "/"@ + what@,
{
    let a = concat(base, "/indexes/");
    let b = concat(a.as_str(), index_id);
    let c = concat(b.as_str(), "/");
    concat(c.as_str(), what)
}

/// The number of chunks that a status answer reports.
pub open spec fn reported_chunks(answer: Seq<char>) -> Option<u64> {
    match parsed_json(answer) {
        Ok(v) => match member(v, "chunk_count"@) {
            Some(m) => number_of(m),
            None => None,
        },
        Err(_) => None,
    }
}

/// The number of chunks that a status answer reports.
pub fn chunk_count_in(answer: &str) -> (n: Option<u64>)
    ensures
        n == reported_chunks(answer@),
{
    match parse_json(answer) {
        Ok(v) => match get_member(&v, "chunk_count") {
            Some(m) => as_number(m),
            None => None,
        },
        Err(_) => None,
    }
}

/// Whether a search answer holds at least one result.
pub open spec fn has_results(answer: Seq<char>) -> bool {
    match parsed_json(answer) {
        Ok(v) => match member(v, "results"@) {
            Some(r) => match items_of(r) {
                Some(items) => items.len() > 0,
                None => false,
            },
            None => false,
        },
        Err(_) => false,
    }
}

/// Whether a search answer holds at least one result.
pub fn results_in(answer: &str) -> (r: bool)
    ensures
        r == has_results(answer@),
{
    match parse_json(answer) {
        Ok(v) => match get_member(&v, "results") {
            Some(m) => match as_items(m) {
                Some(items) => {
                    assert(crate::json::trees(items@).len() == items@.len());
                    items.len() > 0
                },
                None => false,
            },
            None => false,
        },
        Err(_) => false,
    }
}

// ---------------------------------------------------------------------------
// Trying the index out
// ---------------------------------------------------------------------------

/// The words that the index is tried out with, in order: one of them occurs in
/// nearly every source tree.
pub fn probes() -> (words: Vec<String>)
    ensures
        texts(words@) == seq!["fn"@, "function"@, "def"@, "class"@, "the"@],
{
    let mut words: Vec<String> = Vec::new();
    words.push("fn".to_owned());
    words.push("function".to_owned());
    words.push("def".to_owned());
    words.push("class".to_owned());
    words.push("the".to_owned());
    assert(texts(words@) =~= seq!["fn"@, "function"@, "def"@, "class"@, "the"@]);
    words
}

/// How many chunks there were before, where it is known.
pub open spec fn was_text(prior: Option<u64>) -> Seq<char> {
    match prior {
        Some(p) => " (was "@ + grouped(decimal(p as nat)) + ")"@,
        None => Seq::empty(),
    }
}

/// Whether one of the answers that came holds a result.
pub open spec fn any_hit(answers: Seq<Option<String>>) -> bool {
    exists|i: int|
        0 <= i < answers.len() && ((#[trigger] answers[i]) matches Some(a) && has_results(a@))
}

/// Whether one of the answers that came holds a result: nothing more need be
/// asked then.
pub fn probes_answered(answers: &Vec<Option<String>>) -> (r: bool)
    ensures
        r == any_hit(answers@),
{
    for i in 0..answers.len()
        invariant
            forall|j: int|
                0 <= j < i ==> !((#[trigger] answers@[j]) matches Some(a) && has_results(a@)),
    {
        if let Some(a) = &answers[i] {
            if results_in(a.as_str()) {
                assert(answers@[i as int] matches Some(a) && has_results(a@));
                return true;
            }
        }
    }
    false
}

/// What trying the index out showed: a healthy index has chunks, answers at
/// least one of the words and was built without errors. `answers` holds what came
/// back for each word that was asked for.
pub fn verify_reindex_health(
    new_chunks: u64,
    answers: &Vec<Option<String>>,
    errors: u64,
    prior: Option<u64>,
) -> (r: Result<String, String>)
    ensures
        match r {
            Ok(s) => new_chunks > 0 && any_hit(answers@) && errors == 0 && s@ == "Reindex complete: "@
                + grouped(decimal(new_chunks as nat)) + " chunks"@ + was_text(prior),
            Err(s) => !(new_chunks > 0 && any_hit(answers@) && errors == 0) && s@
                == "Reindex produced unhealthy index: "@ + grouped(decimal(new_chunks as nat))
                + " chunks"@ + was_text(prior) + ", sanity query "@ + (if any_hit(answers@) {
                "ok"@
            } else {
                "returned 0 results"@
            }) + " — old index NOT preserved (daemon reindex is in-place; see crates/trusty-search-service/src/reindex.rs)"@,
        },
{
    let got_hit = probes_answered(answers);
    let was = match prior {
        Some(p) => {
            let head = concat(" (was ", format_with_commas(p).as_str());
            concat(head.as_str(), ")")
        },
        None => String::new(),
    };
    let chunks = format_with_commas(new_chunks);
    if new_chunks > 0 && got_hit && errors == 0 {
        let mut s = "Reindex complete: ".to_owned();
        s.append(chunks.as_str());
        s.append(" chunks");
        s.append(was.as_str());
        Ok(s)
    } else {
        let mut s = "Reindex produced unhealthy index: ".to_owned();
        s.append(chunks.as_str());
        s.append(" chunks");
        s.append(was.as_str());
        s.append(", sanity query ");
        s.append(if got_hit {
            "ok"
        } else {
            "returned 0 results"
        });
        s.append(" — old index NOT preserved (daemon reindex is in-place; see crates/trusty-search-service/src/reindex.rs)");
        Err(s)
    }
}

// ---------------------------------------------------------------------------
// Laws
// ---------------------------------------------------------------------------

/// The client's outcome of a reindex is exactly what the daemon reports at its
/// end.
pub proof fn client_reads_the_final_report(s: Score, totals: ReindexTotals)
    ensures
        ({
            let (after, reaction) = react(s, event_tree(EventView::Complete { totals }));
            &&& reaction is Over
            &&& after.outcome == (ReindexOutcome {
                indexed: totals.indexed as u64,
                total_chunks: totals.total_chunks as u64,
                skipped: totals.skipped as u64,
                errors: totals.errors as u64,
                elapsed_ms: totals.elapsed_ms,
                completed: true,
                timings: Some(
                    StageTimings {
                        parse_ms: totals.timings.parse_ms,
                        embed_ms: totals.timings.embed_ms,
                        bm25_ms: totals.timings.bm25_ms,
                        vector_upsert_ms: totals.timings.vector_upsert_ms,
                        kg_ms: totals.timings.kg_ms,
                        vector_count: totals.timings.vector_count as u64,
                        symbol_count: totals.timings.symbol_count as u64,
                        edge_count: totals.timings.edge_count as u64,
                    },
                ),
            })
        }),
{
    lemma_kinds_differ();
    lemma_report_keys_differ();
}

/// The client counts what the daemon reports for each batch and each skipped
/// file.
pub proof fn client_reads_progress(
    s: Score,
    batch_files: usize,
    batch_chunks: usize,
    indexed: usize,
    total_files: usize,
    elapsed_ms: u64,
    chunks_per_sec: u64,
    file: Seq<char>,
    minified: bool,
)
    ensures
        ({
            let (after, reaction) = react(
                s,
                event_tree(
                    EventView::Batch {
                        batch_files,
                        batch_chunks,
                        indexed,
                        total_files,
                        elapsed_ms,
                        chunks_per_sec,
                    },
                ),
            );
            &&& reaction is Show
            &&& after.indexed == indexed
            &&& after.chunks == wrapped_sum(s.chunks, batch_chunks as u64)
            &&& total_files > 0 ==> after.total == total_files
        }),
        ({
            let (after, reaction) = react(
                s,
                event_tree(EventView::Skip { file, minified, indexed, total_files }),
            );
            &&& reaction is Show
            &&& after.indexed == indexed
            &&& after.skipped == wrapped_sum(s.skipped, 1)
        }),
{
    lemma_kinds_differ();
    lemma_report_keys_differ();
}

proof fn lemma_kinds_differ()
    ensures
        "start"@ != "batch"@ && "start"@ != "skip"@ && "start"@ != "complete"@ && "start"@
            != "error"@,
        "batch"@ != "skip"@ && "batch"@ != "complete"@ && "batch"@ != "error"@,
        "skip"@ != "complete"@ && "skip"@ != "error"@,
        "complete"@ != "error"@,
{
    reveal_strlit("start");
    reveal_strlit("batch");
    reveal_strlit("skip");
    reveal_strlit("complete");
    reveal_strlit("error");
    assert("start"@[0] == 's' && "batch"@[0] == 'b' && "error"@[0] == 'e');
    assert("start"@.len() == 5 && "batch"@.len() == 5 && "error"@.len() == 5 && "skip"@.len() == 4
        && "complete"@.len() == 8);
}

/// The position of a letter that tells the keys of a report apart.
spec fn signature(s: Seq<char>) -> (nat, char, char) {
    (s.len(), s[0], s[1])
}

proof fn lemma_report_keys_differ()
    ensures
        signature("event"@) == (5nat, 'e', 'v'),
        signature("indexed"@) == (7nat, 'i', 'n'),
        signature("total_chunks"@) == (12nat, 't', 'o'),
        signature("total_files"@) == (11nat, 't', 'o'),
        signature("batch_files"@) == (11nat, 'b', 'a'),
        signature("batch_chunks"@) == (12nat, 'b', 'a'),
        signature("skipped"@) == (7nat, 's', 'k'),
        signature("errors"@) == (6nat, 'e', 'r'),
        signature("elapsed_ms"@) == (10nat, 'e', 'l'),
        signature("chunks_per_sec"@) == (14nat, 'c', 'h'),
        signature("peak_rss_mb"@) == (11nat, 'p', 'e'),
        signature("memory_limit_hit"@) == (16nat, 'm', 'e'),
        signature("kg_skipped"@) == (10nat, 'k', 'g'),
        signature("timings"@) == (7nat, 't', 'i'),
        signature("file"@) == (4nat, 'f', 'i'),
        signature("reason"@) == (6nat, 'r', 'e'),
        signature("parse_ms"@) == (8nat, 'p', 'a'),
        signature("embed_ms"@) == (8nat, 'e', 'm'),
        signature("bm25_ms"@) == (7nat, 'b', 'm'),
        signature("vector_upsert_ms"@) == (16nat, 'v', 'e'),
        signature("kg_ms"@) == (5nat, 'k', 'g'),
        signature("vector_count"@) == (12nat, 'v', 'e'),
        signature("symbol_count"@) == (12nat, 's', 'y'),
        signature("edge_count"@) == (10nat, 'e', 'd'),
{
    reveal_strlit("event");
    reveal_strlit("indexed");
    reveal_strlit("total_chunks");
    reveal_strlit("total_files");
    reveal_strlit("batch_files");
    reveal_strlit("batch_chunks");
    reveal_strlit("skipped");
    reveal_strlit("errors");
    reveal_strlit("elapsed_ms");
    reveal_strlit("chunks_per_sec");
    reveal_strlit("peak_rss_mb");
    reveal_strlit("memory_limit_hit");
    reveal_strlit("kg_skipped");
    reveal_strlit("timings");
    reveal_strlit("file");
    reveal_strlit("reason");
    reveal_strlit("parse_ms");
    reveal_strlit("embed_ms");
    reveal_strlit("bm25_ms");
    reveal_strlit("vector_upsert_ms");
    reveal_strlit("kg_ms");
    reveal_strlit("vector_count");
    reveal_strlit("symbol_count");
    reveal_strlit("edge_count");
}

} // verus!
