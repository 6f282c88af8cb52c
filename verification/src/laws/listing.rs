//! Listing the chunks of an index and looking them up.
use crate::engine::chunk::{result_views, CodeChunk, RawChunkView};
use crate::engine::indexer::CodeIndexer;
use crate::engine::listing::{is_full_listing, is_wanted, listing_key, page};
use crate::laws::search::tells_chunk;
use crate::laws::text::{comes_before, endings_follow_a_beginning, keys_are_ordered_by_text};
use crate::sorting::lex_le;
use vstd::prelude::*;

verus! {

/// Whether the chunk comes no later than the other: by file, then by first line,
/// then by last line.
pub open spec fn is_listed_before(a: RawChunkView, b: RawChunkView) -> bool {
    ||| comes_before(a.file, b.file)
    ||| a.file == b.file && a.start_line < b.start_line
    ||| a.file == b.file && a.start_line == b.start_line && a.end_line <= b.end_line
}

/// A listing goes by file, then by first line, then by last line.
pub proof fn listing_goes_by_file_and_line(
    corpus: Map<Seq<char>, RawChunkView>,
    listing: Seq<Seq<char>>,
    i: int,
    j: int,
)
    requires
        is_full_listing(corpus, listing),
        0 <= i < j < listing.len(),
    ensures
        listing[i] != listing[j],
        is_listed_before(corpus[listing[i]], corpus[listing[j]]),
{
    let a = corpus[listing[i]];
    let b = corpus[listing[j]];
    let x = seq![a.start_line as u64, a.end_line as u64];
    let y = seq![b.start_line as u64, b.end_line as u64];
    assert(lex_le(listing_key(a), listing_key(b)));
    assert(listing_key(a) =~= crate::paths::text_key(a.file) + x);
    assert(listing_key(b) =~= crate::paths::text_key(b.file) + y);
    keys_are_ordered_by_text(a.file, x, b.file, y);
    if !comes_before(a.file, b.file) && x[0] == y[0] {
        assert(lex_le(x.skip(1), y.skip(1)));
        assert(x.skip(1)[0] == a.end_line as u64);
        assert(y.skip(1)[0] == b.end_line as u64);
    }
}

/// A listing names the chunks of the index, each once: as many as there are.
pub proof fn listing_names_every_chunk(
    corpus: Map<Seq<char>, RawChunkView>,
    listing: Seq<Seq<char>>,
    k: Seq<char>,
)
    requires
        is_full_listing(corpus, listing),
    ensures
        corpus.contains_key(k) == listing.contains(k),
{
}

/// A page shows the chunks from the `offset`-th on, as many as were asked for or are
/// left, in the order of the listing; each entry tells all that the chunk holds, and
/// has no score and no snippet.
pub proof fn pages_show_the_chunks_in_turn(
    ix: &CodeIndexer,
    offset: usize,
    limit: usize,
    out: Seq<CodeChunk>,
)
    requires
        result_views(out) == ix.listed(page(ix.listing(), offset as int, limit as int)),
    ensures
        offset >= ix.listing().len() ==> out.len() == 0,
        offset < ix.listing().len() ==> out.len() == (if limit < ix.listing().len() - offset {
            limit as int
        } else {
            ix.listing().len() - offset
        }),
        forall|i: int|
            0 <= i < out.len() ==> tells_chunk(
                #[trigger] out[i],
                ix@.corpus[ix.listing()[offset + i]],
            ) && out[i].score == 0 && out[i].compact_snippet is None && out[i].index_id is None
                && out[i].match_reason@ == "enumerate"@,
{
    let shown = page(ix.listing(), offset as int, limit as int);
    assert(out.len() == result_views(out).len());
    assert forall|i: int| 0 <= i < out.len() implies tells_chunk(
        #[trigger] out[i],
        ix@.corpus[ix.listing()[offset + i]],
    ) && out[i].score == 0 && out[i].compact_snippet is None && out[i].index_id is None
        && out[i].match_reason@ == "enumerate"@ by {
        assert(result_views(out)[i] == out[i]@);
        assert(shown[i] == ix.listing()[offset + i]);
        let c = ix@.corpus[shown[i]];
        assert(crate::text::texts(out[i].calls@) == c.calls);
        assert(crate::text::texts(out[i].inherits_from@) == c.inherits_from);
        assert forall|j: int| 0 <= j < c.calls.len() implies (#[trigger] out[i].calls@[j])@
            == c.calls[j] by {
            assert(crate::text::texts(out[i].calls@)[j] == out[i].calls@[j]@);
        }
        assert forall|j: int| 0 <= j < c.inherits_from.len() implies (
        #[trigger] out[i].inherits_from@[j])@ == c.inherits_from[j] by {
            assert(crate::text::texts(out[i].inherits_from@)[j] == out[i].inherits_from@[j]@);
        }
    }
}

/// A chunk is looked for by the end of its path and, where one is named, by its
/// function; the path may have any beginning.
pub proof fn chunks_are_found_by_path_and_function(
    c: RawChunkView,
    beginning: Seq<char>,
    suffix: Seq<char>,
    function: Option<Seq<char>>,
)
    ensures
        c.file == beginning + suffix && (function is None || c.function_name == function)
            ==> is_wanted(c, suffix, function),
        is_wanted(c, suffix, function) ==> c.file == c.file.take(c.file.len() - suffix.len())
            + suffix && (function is None || c.function_name == function),
{
    endings_follow_a_beginning(c.file, suffix, beginning);
}

} // verus!
