//! Listing the chunks of an index and looking them up.
use crate::engine::chunk::{
    build_compact_snippet, code_chunk_of, compact_snippet_spec, raw_to_code_chunk, result_views,
    CodeChunk, CodeChunkView, RawChunk, RawChunkView,
};
use crate::engine::indexer::CodeIndexer;
use crate::engine::memguard::opt_str;
use crate::paths::{push_text_key, text_key};
use crate::sorting::{is_order, lex_le, lists, order_is_unique, precedes, sort_order};
use crate::text::{chars_of, ends_with, ends_with_spec, same_text};
use vstd::prelude::*;

verus! {

// ---------------------------------------------------------------------------
// The whole corpus
// ---------------------------------------------------------------------------

/// The numbers by which chunks are listed: by file, then by first and last line.
pub open spec fn listing_key(c: RawChunkView) -> Seq<u64> {
    text_key(c.file).push(c.start_line as u64).push(c.end_line as u64)
}

fn listing_sort_key(c: &RawChunk) -> (key: Vec<u64>)
    ensures
        key@ == listing_key(c@),
{
    let v = chars_of(c.file.as_str());
    let mut key: Vec<u64> = Vec::new();
    push_text_key(&mut key, &v, 0, v.len());
    assert(v@.subrange(0, v@.len() as int) =~= v@);
    key.push(c.start_line as u64);
    key.push(c.end_line as u64);
    assert(key@ =~= listing_key(c@));
    key
}

impl CodeIndexer {
    spec fn listing_keys(&self) -> Seq<Seq<u64>> {
        self.ids().map_values(|id: Seq<char>| listing_key(self@.corpus[id]))
    }

    spec fn is_listing_order(&self, order: Seq<usize>) -> bool {
        exists|keys: Seq<Vec<u64>>| #[trigger]
            is_order(keys, order, 0, self.ids().len() as int) && keys.len() == self.ids().len() && (
            forall|i: int| 0 <= i < keys.len() ==> (#[trigger] keys[i])@ == self.listing_keys()[i])
    }

    /// The order in which the chunks are listed, as positions of the walk.
    spec fn listing_order(&self) -> Seq<usize> {
        choose|order: Seq<usize>| #[trigger] self.is_listing_order(order)
    }

    /// The ids of all chunks in the order in which they are listed.
    pub closed spec fn listing(&self) -> Seq<Seq<char>> {
        self.listing_order().map_values(|p: usize| self.ids()[p as int])
    }

    /// The results that list the chunks with the given ids.
    pub open spec fn listed(&self, ids: Seq<Seq<char>>) -> Seq<CodeChunkView> {
        ids.map_values(
            |id: Seq<char>| code_chunk_of(self@.corpus[id], 0, "enumerate"@, None),
        )
    }

    proof fn lemma_listing_order(&self, keys: Seq<Vec<u64>>, order: Seq<usize>)
        requires
            is_order(keys, order, 0, self.ids().len() as int),
            keys.len() == self.ids().len(),
            forall|i: int| 0 <= i < keys.len() ==> (#[trigger] keys[i])@ == self.listing_keys()[i],
        ensures
            self.listing_order() == order,
            self.listing() == order.map_values(|p: usize| self.ids()[p as int]),
    {
        assert(self.is_listing_order(order));
        let other = self.listing_order();
        assert(self.is_listing_order(other));
        let k2 = choose|k2: Seq<Vec<u64>>| #[trigger]
            is_order(k2, other, 0, self.ids().len() as int) && k2.len() == self.ids().len() && (
            forall|i: int| 0 <= i < k2.len() ==> (#[trigger] k2[i])@ == self.listing_keys()[i]);
        assert forall|i: int, j: int| 0 <= i < keys.len() && 0 <= j < keys.len() implies precedes(
            k2,
            i,
            j,
        ) == #[trigger] precedes(keys, i, j) by {
            assert(k2[i]@ == keys[i]@);
            assert(k2[j]@ == keys[j]@);
        }
        assert forall|a: int, b: int| 0 <= a < b < other.len() implies precedes(
            keys,
            (#[trigger] other[a]) as int,
            (#[trigger] other[b]) as int,
        ) by {
            assert(precedes(k2, other[a] as int, other[b] as int));
        }
        assert(is_order(keys, other, 0, self.ids().len() as int));
        order_is_unique(keys, order, other, 0, self.ids().len() as int);
    }

    fn compute_listing(&self) -> (order: Vec<usize>)
        requires
            self.wf(),
        ensures
            order@ == self.listing_order(),
            order@.len() == self.ids().len(),
            forall|i: int| 0 <= i < order@.len() ==> (#[trigger] order@[i]) < self.ids().len(),
            self.listing() == order@.map_values(|p: usize| self.ids()[p as int]),
            is_full_listing(self@.corpus, self.listing()),
    {
        let n: usize = self.chunk_count();
        let mut keys: Vec<Vec<u64>> = Vec::new();
        for i in 0..n
            invariant
                self.wf(),
                n == self.ids().len(),
                keys.len() == i,
                forall|j: int|
                    0 <= j < i ==> (#[trigger] keys@[j])@ == listing_key(
                        self@.corpus[self.ids()[j]],
                    ),
        {
            keys.push(listing_sort_key(self.chunk_at(i)));
        }
        let order = sort_order(&keys);
        proof {
            self.lemma_listing_order(keys@, order@);
            self.index_keeps_its_limits();
            let listing = self.listing();
            assert forall|i: int| 0 <= i < listing.len() implies self@.corpus.contains_key(
                #[trigger] listing[i],
            ) by {
                assert(listing[i] == self.ids()[order@[i] as int]);
            }
            assert forall|k: Seq<char>| #[trigger]
                self@.corpus.contains_key(k) implies listing.contains(k) by {
                let p = choose|p: int| 0 <= p < self.ids().len() && #[trigger] self.ids()[p] == k;
                assert(lists(order@, p));
                let a = choose|a: int| 0 <= a < order@.len() && #[trigger] order@[a] == p;
                assert(listing[a] == k);
            }
            assert forall|i: int, j: int| 0 <= i < j < listing.len() implies (
            #[trigger] listing[i]) != (#[trigger] listing[j]) && lex_le(
                listing_key(self@.corpus[listing[i]]),
                listing_key(self@.corpus[listing[j]]),
            ) by {
                assert(precedes(keys@, order@[i] as int, order@[j] as int));
                if order@[i] == order@[j] {
                    assert(lex_le(keys@[order@[j] as int]@, keys@[order@[i] as int]@));
                }
                assert(self.ids()[order@[i] as int] != self.ids()[order@[j] as int]);
            }
        }
        order
    }

    /// One page of the listing, and how many chunks there are in all. The page
    /// is empty where no chunk is asked for or the listing ends before it.
    pub fn enumerate_chunks(&self, offset: usize, limit: usize) -> (r: (usize, Vec<CodeChunk>))
        requires
            self.wf(),
        ensures
            r.0 == self@.corpus.dom().len(),
            r.0 == self.listing().len(),
            is_full_listing(self@.corpus, self.listing()),
            result_views(r.1@) == self.listed(
                page(self.listing(), offset as int, limit as int),
            ),
    {
        let total: usize = self.chunk_count();
        let order = self.compute_listing();
        let mut out: Vec<CodeChunk> = Vec::new();
        if limit == 0 || offset >= total {
            assert(result_views(out@) =~= self.listed(
                page(self.listing(), offset as int, limit as int),
            ));
            return (total, out);
        }
        let end: usize = if limit < total - offset {
            offset + limit
        } else {
            total
        };
        for i in offset..end
            invariant
                self.wf(),
                offset <= i <= end <= total,
                total == order.len(),
                total == self.ids().len(),
                forall|j: int| 0 <= j < order@.len() ==> (#[trigger] order@[j]) < self.ids().len(),
                out.len() == i - offset,
                forall|j: int|
                    0 <= j < out.len() ==> (#[trigger] out@[j])@ == code_chunk_of(
                        self@.corpus[self.ids()[order@[offset + j] as int]],
                        0,
                        "enumerate"@,
                        None,
                    ),
        {
            let c = self.chunk_at(order[i]);
            out.push(raw_to_code_chunk(c, 0, "enumerate", None));
        }
        assert(result_views(out@) =~= self.listed(
            page(self.listing(), offset as int, limit as int),
        ));
        (total, out)
    }

    /// Every chunk of the index, in the order of the walk.
    pub fn all_chunks(&self) -> (out: Vec<CodeChunk>)
        requires
            self.wf(),
        ensures
            result_views(out@) == self.ids().map_values(
                |id: Seq<char>| code_chunk_of(self@.corpus[id], 0, "all"@, None),
            ),
    {
        let n: usize = self.chunk_count();
        let mut out: Vec<CodeChunk> = Vec::new();
        for i in 0..n
            invariant
                self.wf(),
                n == self.ids().len(),
                out.len() == i,
                forall|j: int|
                    0 <= j < i ==> (#[trigger] out@[j])@ == code_chunk_of(
                        self@.corpus[self.ids()[j]],
                        0,
                        "all"@,
                        None,
                    ),
        {
            out.push(raw_to_code_chunk(self.chunk_at(i), 0, "all", None));
        }
        assert(result_views(out@) =~= self.ids().map_values(
            |id: Seq<char>| code_chunk_of(self@.corpus[id], 0, "all"@, None),
        ));
        out
    }

    /// The id of the chunk that starts first among those of a file whose path
    /// ends in `file_suffix` and, where one is named, of the function.
    pub fn find_chunk_id(&self, file_suffix: &str, function: Option<&str>) -> (r: Option<String>)
        requires
            self.wf(),
        ensures
            match r {
                Some(id) => self@.corpus.contains_key(id@) && is_wanted(
                    self@.corpus[id@],
                    file_suffix@,
                    opt_str(function),
                ) && forall|k: Seq<char>| #[trigger]
                    self@.corpus.contains_key(k) && is_wanted(
                        self@.corpus[k],
                        file_suffix@,
                        opt_str(function),
                    ) ==> self@.corpus[id@].start_line <= self@.corpus[k].start_line,
                None => forall|k: Seq<char>| #[trigger]
                    self@.corpus.contains_key(k) ==> !is_wanted(
                        self@.corpus[k],
                        file_suffix@,
                        opt_str(function),
                    ),
            },
    {
        let n: usize = self.chunk_count();
        let mut best: Option<usize> = None;
        for i in 0..n
            invariant
                self.wf(),
                n == self.ids().len(),
                match best {
                    Some(b) => b < i && is_wanted(
                        self@.corpus[self.ids()[b as int]],
                        file_suffix@,
                        opt_str(function),
                    ) && forall|j: int|
                        0 <= j < i && is_wanted(
                            self@.corpus[#[trigger] self.ids()[j]],
                            file_suffix@,
                            opt_str(function),
                        ) ==> self@.corpus[self.ids()[b as int]].start_line
                            <= self@.corpus[self.ids()[j]].start_line,
                    None => forall|j: int|
                        0 <= j < i ==> !is_wanted(
                            self@.corpus[#[trigger] self.ids()[j]],
                            file_suffix@,
                            opt_str(function),
                        ),
                },
        {
            let c = self.chunk_at(i);
            if wanted(c, file_suffix, function) {
                let better = match best {
                    Some(b) => c.start_line < self.chunk_at(b).start_line,
                    None => true,
                };
                if better {
                    best = Some(i);
                }
            }
        }
        proof {
            self.index_keeps_its_limits();
            assert forall|k: Seq<char>| #[trigger] self@.corpus.contains_key(k) implies exists|p: int|
                0 <= p < self.ids().len() && #[trigger] self.ids()[p] == k by {
            }
        }
        match best {
            Some(b) => {
                let r = self.chunk_at(b).id.clone();
                Some(r)
            },
            None => None,
        }
    }

    /// The results for chunks near a given one: the nearest hits, best first,
    /// without the chunk itself and without hits that the index does not hold.
    pub fn similar_by_embedding(
        &self,
        hits: &Vec<(String, u32)>,
        top_k: usize,
        exclude_id: Option<&str>,
    ) -> (out: Vec<CodeChunk>)
        requires
            self.wf(),
        ensures
            result_views(out@) == similar_spec(
                self@.corpus,
                hit_views(hits@),
                top_k as int,
                opt_str(exclude_id),
            ),
    {
        let mut out: Vec<CodeChunk> = Vec::new();
        if top_k == 0 {
            assert(result_views(out@) =~= Seq::empty());
            return out;
        }
        let ghost all = hit_views(hits@);
        let ghost ex = opt_str(exclude_id);
        let ghost whole = similar_spec(self@.corpus, all, top_k as int, ex);
        assert(all.skip(0) =~= all);
        assert(result_views(out@) + similar_spec(self@.corpus, all, top_k as int, ex) =~= whole);
        for i in 0..hits.len()
            invariant
                self.wf(),
                all == hit_views(hits@),
                ex == opt_str(exclude_id),
                whole == similar_spec(self@.corpus, all, top_k as int, ex),
                out.len() < top_k,
                result_views(out@) + similar_spec(
                    self@.corpus,
                    all.skip(i as int),
                    top_k - out.len(),
                    ex,
                ) == whole,
        {
            let ghost rest = all.skip(i as int);
            let ghost before = result_views(out@);
            assert(rest[0] == (hits@[i as int].0@, hits@[i as int].1));
            assert(rest.skip(1) =~= all.skip(i + 1));
            let excluded = match exclude_id {
                Some(e) => same_text(hits[i].0.as_str(), e),
                None => false,
            };
            if !excluded {
                if let Some(raw) = self.chunk(hits[i].0.as_str()) {
                    let snippet = Some(build_compact_snippet(raw.content.as_str()));
                    let c = raw_to_code_chunk(raw, hits[i].1, "vector", snippet);
                    let ghost cv = c@;
                    out.push(c);
                    assert(result_views(out@) =~= before.push(cv));
                    if out.len() >= top_k {
                        assert(similar_spec(self@.corpus, all.skip(i + 1), 0, ex) =~= Seq::empty());
                        assert(before + (seq![cv] + Seq::<CodeChunkView>::empty()) =~= result_views(
                            out@,
                        ));
                        return out;
                    }
                    assert(before + (seq![cv] + similar_spec(
                        self@.corpus,
                        all.skip(i + 1),
                        top_k - out.len(),
                        ex,
                    )) =~= result_views(out@) + similar_spec(
                        self@.corpus,
                        all.skip(i + 1),
                        top_k - out.len(),
                        ex,
                    ));
                }
            }
        }
        assert(all.skip(hits@.len() as int) =~= Seq::empty());
        assert(result_views(out@) =~= whole);
        out
    }
}

/// The hits to ask the vector store for: one more than wanted, since the chunk
/// itself is left out.
pub fn similar_want(top_k: usize) -> (n: usize)
    ensures
        n == (if top_k < usize::MAX {
            (top_k + 1) as usize
        } else {
            usize::MAX
        }),
{
    if top_k < usize::MAX {
        top_k + 1
    } else {
        top_k
    }
}

/// Whether a listing holds every chunk exactly once, by file, then by first and
/// last line.
pub open spec fn is_full_listing(
    corpus: Map<Seq<char>, RawChunkView>,
    listing: Seq<Seq<char>>,
) -> bool {
    &&& forall|i: int| 0 <= i < listing.len() ==> corpus.contains_key(#[trigger] listing[i])
    &&& forall|k: Seq<char>| #[trigger] corpus.contains_key(k) ==> listing.contains(k)
    &&& forall|i: int, j: int|
        0 <= i < j < listing.len() ==> (#[trigger] listing[i]) != (#[trigger] listing[j]) && lex_le(
            listing_key(corpus[listing[i]]),
            listing_key(corpus[listing[j]]),
        )
}

/// The part of a listing that a page shows.
pub open spec fn page(listing: Seq<Seq<char>>, offset: int, limit: int) -> Seq<Seq<char>> {
    if limit <= 0 || offset >= listing.len() {
        Seq::empty()
    } else if offset + limit < listing.len() {
        listing.subrange(offset, offset + limit)
    } else {
        listing.subrange(offset, listing.len() as int)
    }
}

/// Whether a chunk lies in a file whose path ends in `suffix` and, where one is
/// named, belongs to the function.
pub open spec fn is_wanted(c: RawChunkView, suffix: Seq<char>, function: Option<Seq<char>>) -> bool {
    ends_with_spec(c.file, suffix) && (function is Some ==> c.function_name == function)
}

fn wanted(c: &RawChunk, suffix: &str, function: Option<&str>) -> (r: bool)
    ensures
        r == is_wanted(c@, suffix@, opt_str(function)),
{
    if !ends_with(c.file.as_str(), suffix) {
        return false;
    }
    match function {
        Some(f) => match &c.function_name {
            Some(name) => same_text(name.as_str(), f),
            None => false,
        },
        None => true,
    }
}

/// The id and the score of each hit.
pub open spec fn hit_views(v: Seq<(String, u32)>) -> Seq<(Seq<char>, u32)> {
    v.map_values(|p: (String, u32)| (p.0@, p.1))
}

/// The results for the hits, in order, until there are `top_k` of them: without
/// the excluded chunk and without hits that the corpus does not hold.
pub open spec fn similar_spec(
    corpus: Map<Seq<char>, RawChunkView>,
    hits: Seq<(Seq<char>, u32)>,
    top_k: int,
    exclude: Option<Seq<char>>,
) -> Seq<CodeChunkView>
    decreases hits.len(),
{
    if hits.len() == 0 || top_k <= 0 {
        Seq::empty()
    } else {
        let (id, score) = hits[0];
        if exclude == Some(id) || !corpus.contains_key(id) {
            similar_spec(corpus, hits.skip(1), top_k, exclude)
        } else {
            let c = code_chunk_of(
                corpus[id],
                score,
                "vector"@,
                Some(compact_snippet_spec(corpus[id].content)),
            );
            seq![c] + similar_spec(corpus, hits.skip(1), top_k - 1, exclude)
        }
    }
}

// ---------------------------------------------------------------------------
// Laws
// ---------------------------------------------------------------------------

/// Pages that follow each other do not overlap and leave nothing out: two of
/// them make up the page of both.
pub proof fn pages_follow_each_other(listing: Seq<Seq<char>>, offset: int, a: int, b: int)
    requires
        0 <= offset,
        0 < a,
        0 < b,
    ensures
        page(listing, offset, a) + page(listing, offset + a, b) == page(listing, offset, a + b),
{
    assert(page(listing, offset, a) + page(listing, offset + a, b) =~= page(listing, offset, a + b));
}

/// The first `n` pages of `limit` chunks each, one after the other.
pub open spec fn pages(listing: Seq<Seq<char>>, limit: int, n: nat) -> Seq<Seq<char>>
    decreases n,
{
    if n == 0 {
        Seq::empty()
    } else {
        pages(listing, limit, (n - 1) as nat) + page(listing, (n - 1) * limit, limit)
    }
}

proof fn lemma_pages(listing: Seq<Seq<char>>, limit: int, n: nat)
    requires
        limit >= 1,
    ensures
        n * limit <= listing.len() ==> pages(listing, limit, n) == listing.take(n * limit),
        n * limit >= listing.len() ==> pages(listing, limit, n) == listing,
    decreases n,
{
    if n == 0 {
        assert(n * limit == 0) by (nonlinear_arith)
            requires
                n == 0,
        ;
        assert(pages(listing, limit, n) =~= listing.take(0));
    } else {
        let m = (n - 1) as nat;
        lemma_pages(listing, limit, m);
        assert(n * limit == m * limit + limit && m * limit >= 0) by (nonlinear_arith)
            requires
                n == m + 1,
                limit >= 1,
        ;
        let last = page(listing, m * limit, limit);
        if n * limit <= listing.len() {
            assert(listing.take(m * limit) + last =~= listing.take(n * limit));
        }
        if m * limit >= listing.len() {
            assert(listing + last =~= listing);
        } else if n * limit >= listing.len() {
            assert(listing.take(m * limit) + last =~= listing);
        }
    }
}

/// The pages of one size, taken in turn until the listing ends, hold every chunk
/// exactly once, by file, then by first and last line. Every page that does not
/// reach the end is full, and where no two chunks share file and lines, each
/// chunk comes strictly after the one before.
pub proof fn pages_make_up_the_listing(
    corpus: Map<Seq<char>, RawChunkView>,
    listing: Seq<Seq<char>>,
    limit: int,
    n: nat,
)
    requires
        is_full_listing(corpus, listing),
        limit >= 1,
        n * limit >= listing.len(),
    ensures
        pages(listing, limit, n) == listing,
        is_full_listing(corpus, pages(listing, limit, n)),
        forall|i: nat|
            (i + 1) * limit <= listing.len() ==> (#[trigger] page(
                listing,
                i * limit,
                limit,
            )).len() == limit,
        (forall|a: Seq<char>, b: Seq<char>|
            #![trigger corpus[a], corpus[b]]
            corpus.contains_key(a) && corpus.contains_key(b) && a != b ==> listing_key(corpus[a])
                != listing_key(corpus[b])) ==> forall|i: int, j: int|
            0 <= i < j < listing.len() ==> lex_le(
                listing_key(corpus[#[trigger] listing[i]]),
                listing_key(corpus[#[trigger] listing[j]]),
            ) && listing_key(corpus[listing[i]]) != listing_key(corpus[listing[j]]),
{
    lemma_pages(listing, limit, n);
    assert forall|i: nat| (i + 1) * limit <= listing.len() implies (#[trigger] page(
        listing,
        i * limit,
        limit,
    )).len() == limit by {
        assert((i + 1) * limit == i * limit + limit && i * limit >= 0) by (nonlinear_arith)
            requires
                limit >= 1,
        ;
    }
}

/// A page as long as the listing is the listing.
pub proof fn full_page_is_the_listing(listing: Seq<Seq<char>>, limit: int)
    requires
        limit >= listing.len(),
    ensures
        page(listing, 0, limit) == listing,
{
    assert(page(listing, 0, limit) =~= listing);
}

/// The chunk that was asked about is never among the chunks similar to it, and
/// of the others there are no more than asked for.
pub proof fn similar_leaves_the_chunk_itself_out(
    corpus: Map<Seq<char>, RawChunkView>,
    hits: Seq<(Seq<char>, u32)>,
    top_k: int,
    exclude: Seq<char>,
)
    requires
        forall|k: Seq<char>| #[trigger] corpus.contains_key(k) ==> corpus[k].id == k,
    ensures
        forall|i: int|
            0 <= i < similar_spec(corpus, hits, top_k, Some(exclude)).len() ==> (
            #[trigger] similar_spec(corpus, hits, top_k, Some(exclude))[i]).id != exclude,
        top_k >= 0 ==> similar_spec(corpus, hits, top_k, Some(exclude)).len() <= top_k,
    decreases hits.len(),
{
    if hits.len() > 0 {
        similar_leaves_the_chunk_itself_out(corpus, hits.skip(1), top_k, exclude);
        similar_leaves_the_chunk_itself_out(corpus, hits.skip(1), top_k - 1, exclude);
        let r = similar_spec(corpus, hits, top_k, Some(exclude));
        let (id, score) = hits[0];
        if !(id == exclude || !corpus.contains_key(id)) && top_k > 0 {
            let rest = similar_spec(corpus, hits.skip(1), top_k - 1, Some(exclude));
            assert forall|i: int| 0 <= i < r.len() implies (#[trigger] r[i]).id != exclude by {
                if i > 0 {
                    assert(r[i] == rest[i - 1]);
                }
            }
        }
    }
}

} // verus!
