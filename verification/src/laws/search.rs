//! Searching one index.
use crate::engine::chunk::{
    compact_snippet_spec, result_views, CodeChunk, CodeChunkView, RawChunkView,
};
use crate::engine::kg::has_id;
use crate::engine::listing::{hit_views, similar_spec};
use crate::engine::search::{first, materialize_spec};
use vstd::prelude::*;

verus! {

/// Whether one of the hits is that of the chunk.
pub open spec fn hit(hits: Seq<(String, u32)>, id: Seq<char>) -> bool {
    exists|i: int| 0 <= i < hits.len() && (#[trigger] hits[i]).0@ == id
}

/// Whether each chunk is filed under its own id.
pub open spec fn filed_by_id(corpus: Map<Seq<char>, RawChunkView>) -> bool {
    forall|k: Seq<char>| #[trigger] corpus.contains_key(k) ==> corpus[k].id == k
}

/// Whether the result tells of the chunk all that the chunk holds.
pub open spec fn tells_chunk(r: CodeChunk, c: RawChunkView) -> bool {
    &&& r.id@ == c.id
    &&& r.file@ == c.file
    &&& r.content@ == c.content
    &&& r.start_line == c.start_line
    &&& r.end_line == c.end_line
    &&& r.chunk_type == c.chunk_type
    &&& r.chunk_depth == (if c.chunk_depth < 255 {
        c.chunk_depth as int
    } else {
        255
    })
    &&& match c.language {
        Some(l) => r.language matches Some(s) && s@ == l,
        None => r.language is None,
    }
    &&& match c.function_name {
        Some(f) => r.function_name matches Some(s) && s@ == f,
        None => r.function_name is None,
    }
    &&& r.calls@.len() == c.calls.len()
    &&& forall|i: int| 0 <= i < c.calls.len() ==> (#[trigger] r.calls@[i])@ == c.calls[i]
    &&& r.inherits_from@.len() == c.inherits_from.len()
    &&& forall|i: int|
        0 <= i < c.inherits_from.len() ==> (#[trigger] r.inherits_from@[i])@ == c.inherits_from[i]
}

proof fn lemma_views(out: Seq<CodeChunk>, views: Seq<CodeChunkView>)
    requires
        result_views(out) == views,
    ensures
        out.len() == views.len(),
        forall|i: int| 0 <= i < out.len() ==> (#[trigger] out[i])@ == views[i],
{
    assert forall|i: int| 0 <= i < out.len() implies (#[trigger] out[i])@ == views[i] by {
        assert(result_views(out)[i] == out[i]@);
    }
}

proof fn lemma_tells(r: CodeChunk, c: RawChunkView, score: u32, reason: Seq<char>, s: Option<Seq<char>>)
    requires
        r@ == crate::engine::chunk::code_chunk_of(c, score, reason, s),
    ensures
        tells_chunk(r, c),
        r.score == score,
        r.match_reason@ == reason,
        match s {
            Some(t) => r.compact_snippet matches Some(u) && u@ == t,
            None => r.compact_snippet is None,
        },
        r.index_id is None,
{
    let v = r@;
    assert forall|i: int| 0 <= i < c.calls.len() implies (#[trigger] r.calls@[i])@ == c.calls[i] by {
        assert(v.calls[i] == r.calls@[i]@);
    }
    assert forall|i: int| 0 <= i < c.inherits_from.len() implies (
    #[trigger] r.inherits_from@[i])@ == c.inherits_from[i] by {
        assert(v.inherits_from[i] == r.inherits_from@[i]@);
    }
}

proof fn lemma_materialized(
    corpus: Map<Seq<char>, RawChunkView>,
    all: Seq<(String, u32)>,
    hnsw: Seq<(String, u32)>,
    bm25: Seq<(String, u32)>,
    kg: Seq<(String, u32)>,
    compact: bool,
)
    ensures
        ({
            let kept = all.filter(|h: (String, u32)| corpus.contains_key(h.0@));
            let r = materialize_spec(corpus, hit_views(all), hnsw, bm25, kg, compact);
            &&& r.len() == kept.len()
            &&& forall|i: int|
                0 <= i < r.len() ==> corpus.contains_key((#[trigger] kept[i]).0@) && r[i]
                    == crate::engine::search::result_of(
                    corpus,
                    (kept[i].0@, kept[i].1),
                    hnsw,
                    bm25,
                    kg,
                    compact,
                )
        }),
    decreases all.len(),
{
    reveal(Seq::filter);
    let held = |h: (String, u32)| corpus.contains_key(h.0@);
    if all.len() > 0 {
        let head = all.drop_last();
        lemma_materialized(corpus, head, hnsw, bm25, kg, compact);
        assert(hit_views(all).drop_last() =~= hit_views(head));
        assert(hit_views(all).last() == (all.last().0@, all.last().1));
        let before = head.filter(held);
        let kept = all.filter(held);
        let r = materialize_spec(corpus, hit_views(all), hnsw, bm25, kg, compact);
        assert forall|i: int| 0 <= i < r.len() implies corpus.contains_key((#[trigger] kept[i]).0@)
            && r[i] == crate::engine::search::result_of(
            corpus,
            (kept[i].0@, kept[i].1),
            hnsw,
            bm25,
            kg,
            compact,
        ) by {
            if i < before.len() {
                assert(kept[i] == before[i]);
            }
        }
    }
}

/// The results of a search are the leading hits that the index holds, in the order
/// of the hits and with their scores, whichever lanes found them: nothing is left
/// out but what the index does not hold.
pub proof fn results_are_the_leading_hits(
    corpus: Map<Seq<char>, RawChunkView>,
    all: Seq<(String, u32)>,
    hnsw: Seq<(String, u32)>,
    bm25: Seq<(String, u32)>,
    kg: Seq<(String, u32)>,
    top_k: usize,
    compact: bool,
    out: Seq<CodeChunk>,
)
    requires
        filed_by_id(corpus),
        result_views(out) == materialize_spec(
            corpus,
            first(hit_views(all), top_k as int),
            hnsw,
            bm25,
            kg,
            compact,
        ),
    ensures
        ({
            let n = if all.len() < top_k {
                all.len() as int
            } else {
                top_k as int
            };
            let kept = all.take(n).filter(|h: (String, u32)| corpus.contains_key(h.0@));
            &&& out.len() == kept.len()
            &&& forall|i: int|
                0 <= i < out.len() ==> (#[trigger] out[i]).id@ == kept[i].0@ && out[i].score
                    == kept[i].1
            &&& (forall|i: int| 0 <= i < n ==> corpus.contains_key((#[trigger] all[i]).0@)) ==> (
            out.len() == n && forall|i: int|
                0 <= i < n ==> (#[trigger] out[i]).id@ == all[i].0@ && out[i].score == all[i].1)
        }),
{
    let n = if all.len() < top_k {
        all.len() as int
    } else {
        top_k as int
    };
    let part = all.take(n);
    let held = |h: (String, u32)| corpus.contains_key(h.0@);
    assert(first(hit_views(all), top_k as int) =~= hit_views(part));
    lemma_materialized(corpus, part, hnsw, bm25, kg, compact);
    lemma_views(out, materialize_spec(corpus, hit_views(part), hnsw, bm25, kg, compact));
    let kept = part.filter(held);
    assert forall|i: int| 0 <= i < out.len() implies (#[trigger] out[i]).id@ == kept[i].0@
        && out[i].score == kept[i].1 by {
        assert(corpus.contains_key(kept[i].0@));
        assert(out[i]@.id == kept[i].0@);
    }
    if forall|i: int| 0 <= i < n ==> corpus.contains_key((#[trigger] all[i]).0@) {
        assert forall|i: int| 0 <= i < part.len() implies held(#[trigger] part[i]) by {
            assert(part[i] == all[i]);
        }
        lemma_all_kept(part, held);
        assert forall|i: int| 0 <= i < n implies (#[trigger] out[i]).id@ == all[i].0@
            && out[i].score == all[i].1 by {
            assert(kept[i] == all[i]);
        }
    }
}

/// A filter that everything passes keeps everything.
pub proof fn lemma_all_kept<A>(s: Seq<A>, p: spec_fn(A) -> bool)
    requires
        forall|i: int| 0 <= i < s.len() ==> p(#[trigger] s[i]),
    ensures
        s.filter(p) == s,
    decreases s.len(),
{
    reveal(Seq::filter);
    if s.len() > 0 {
        let head = s.drop_last();
        assert forall|i: int| 0 <= i < head.len() implies p(#[trigger] head[i]) by {
            assert(head[i] == s[i]);
        }
        lemma_all_kept(head, p);
        assert(p(s[s.len() - 1]));
        assert(head.push(s.last()) =~= s);
    }
}

/// Every result of a search tells the chunk it is of, says which lanes found it,
/// and carries a snippet exactly where the query asks for one.
pub proof fn results_tell_their_chunks(
    corpus: Map<Seq<char>, RawChunkView>,
    all: Seq<(String, u32)>,
    hnsw: Seq<(String, u32)>,
    bm25: Seq<(String, u32)>,
    kg: Seq<(String, u32)>,
    top_k: usize,
    compact: bool,
    out: Seq<CodeChunk>,
    i: int,
)
    requires
        filed_by_id(corpus),
        result_views(out) == materialize_spec(
            corpus,
            first(hit_views(all), top_k as int),
            hnsw,
            bm25,
            kg,
            compact,
        ),
        0 <= i < out.len(),
    ensures
        corpus.contains_key(out[i].id@),
        tells_chunk(out[i], corpus[out[i].id@]),
        out[i].index_id is None,
        hit(hnsw, out[i].id@) && hit(bm25, out[i].id@) ==> out[i].match_reason@ == "hybrid"@,
        hit(hnsw, out[i].id@) && !hit(bm25, out[i].id@) ==> out[i].match_reason@ == "vector"@,
        !hit(hnsw, out[i].id@) && hit(bm25, out[i].id@) ==> out[i].match_reason@ == "bm25"@,
        !hit(hnsw, out[i].id@) && !hit(bm25, out[i].id@) && hit(kg, out[i].id@)
            ==> out[i].match_reason@ == "hybrid+kg"@,
        !hit(hnsw, out[i].id@) && !hit(bm25, out[i].id@) && !hit(kg, out[i].id@)
            ==> out[i].match_reason@ == "fallback"@,
        compact ==> (out[i].compact_snippet matches Some(s) && s@ == compact_snippet_spec(
            corpus[out[i].id@].content,
        )),
        !compact ==> out[i].compact_snippet is None,
{
    let n = if all.len() < top_k {
        all.len() as int
    } else {
        top_k as int
    };
    let part = all.take(n);
    assert(first(hit_views(all), top_k as int) =~= hit_views(part));
    lemma_materialized(corpus, part, hnsw, bm25, kg, compact);
    lemma_views(out, materialize_spec(corpus, hit_views(part), hnsw, bm25, kg, compact));
    let kept = part.filter(|h: (String, u32)| corpus.contains_key(h.0@));
    let id = kept[i].0@;
    assert(corpus.contains_key(id));
    assert(hit(hnsw, id) == has_id(hnsw, id) && hit(bm25, id) == has_id(bm25, id) && hit(kg, id)
        == has_id(kg, id));
    lemma_tells(
        out[i],
        corpus[id],
        kept[i].1,
        out[i].match_reason@,
        if compact {
            Some(compact_snippet_spec(corpus[id].content))
        } else {
            None
        },
    );
}

// ---------------------------------------------------------------------------
// Similar chunks
// ---------------------------------------------------------------------------

proof fn lemma_similar(
    corpus: Map<Seq<char>, RawChunkView>,
    hits: Seq<(Seq<char>, u32)>,
    top_k: int,
    exclude: Option<Seq<char>>,
    picked: Seq<(Seq<char>, u32)>,
)
    requires
        top_k >= 0,
        picked == hits.filter(
            |h: (Seq<char>, u32)| corpus.contains_key(h.0) && exclude != Some(h.0),
        ),
    ensures
        ({
            let r = similar_spec(corpus, hits, top_k, exclude);
            &&& r.len() == (if picked.len() < top_k {
                picked.len() as int
            } else {
                top_k
            })
            &&& forall|i: int|
                0 <= i < r.len() ==> corpus.contains_key((#[trigger] picked[i]).0) && r[i]
                    == crate::engine::chunk::code_chunk_of(
                    corpus[picked[i].0],
                    picked[i].1,
                    "vector"@,
                    Some(compact_snippet_spec(corpus[picked[i].0].content)),
                )
        }),
    decreases hits.len(),
{
    let f = |h: (Seq<char>, u32)| corpus.contains_key(h.0) && exclude != Some(h.0);
    let r = similar_spec(corpus, hits, top_k, exclude);
    if hits.len() == 0 {
        reveal(Seq::filter);
    } else {
        let rest = hits.skip(1);
        assert(hits =~= seq![hits[0]] + rest);
        Seq::filter_distributes_over_add(seq![hits[0]], rest, f);
        let tail = rest.filter(f);
        let one = seq![hits[0]];
        assert(one.filter(f) == (if f(hits[0]) {
            one
        } else {
            Seq::<(Seq<char>, u32)>::empty()
        })) by {
            reveal_with_fuel(Seq::filter, 2);
            assert(one.drop_last() =~= Seq::<(Seq<char>, u32)>::empty());
            assert(Seq::<(Seq<char>, u32)>::empty().push(hits[0]) =~= one);
        }
        if top_k > 0 {
            if f(hits[0]) {
                lemma_similar(corpus, rest, top_k - 1, exclude, tail);
                let more = similar_spec(corpus, rest, top_k - 1, exclude);
                assert forall|i: int| 0 <= i < r.len() implies corpus.contains_key(
                    (#[trigger] picked[i]).0,
                ) && r[i] == crate::engine::chunk::code_chunk_of(
                    corpus[picked[i].0],
                    picked[i].1,
                    "vector"@,
                    Some(compact_snippet_spec(corpus[picked[i].0].content)),
                ) by {
                    if i > 0 {
                        assert(picked[i] == tail[i - 1]);
                        assert(r[i] == more[i - 1]);
                    }
                }
            } else {
                lemma_similar(corpus, rest, top_k, exclude, tail);
                assert(picked =~= tail);
            }
        }
    }
}

/// A similarity search hands out the nearest chunks: of the hits that the index
/// holds and that are not the chunk itself the first `top_k`, all of them where
/// there are fewer, in the order of the hits and with their scores.
pub proof fn similar_results_are_the_nearest_hits(
    corpus: Map<Seq<char>, RawChunkView>,
    hits: Seq<(String, u32)>,
    top_k: usize,
    exclude: Option<Seq<char>>,
    out: Seq<CodeChunk>,
)
    requires
        filed_by_id(corpus),
        result_views(out) == similar_spec(corpus, hit_views(hits), top_k as int, exclude),
    ensures
        ({
            let kept = hits.filter(
                |h: (String, u32)| corpus.contains_key(h.0@) && exclude != Some(h.0@),
            );
            &&& out.len() == (if kept.len() < top_k {
                kept.len() as int
            } else {
                top_k as int
            })
            &&& forall|i: int|
                0 <= i < out.len() ==> (#[trigger] out[i]).id@ == kept[i].0@ && out[i].score
                    == kept[i].1 && corpus.contains_key(out[i].id@) && tells_chunk(
                    out[i],
                    corpus[out[i].id@],
                ) && out[i].match_reason@ == "vector"@ && out[i].index_id is None && (
                out[i].compact_snippet matches Some(s) && s@ == compact_snippet_spec(
                    corpus[out[i].id@].content,
                ))
        }),
{
    let g = |h: (String, u32)| corpus.contains_key(h.0@) && exclude != Some(h.0@);
    let f = |h: (Seq<char>, u32)| corpus.contains_key(h.0) && exclude != Some(h.0);
    let kept = hits.filter(g);
    let picked = hit_views(hits).filter(f);
    lemma_filtered_views(hits, g, f);
    lemma_similar(corpus, hit_views(hits), top_k as int, exclude, picked);
    lemma_views(out, similar_spec(corpus, hit_views(hits), top_k as int, exclude));
    assert forall|i: int| 0 <= i < out.len() implies (#[trigger] out[i]).id@ == kept[i].0@
        && out[i].score == kept[i].1 && corpus.contains_key(out[i].id@) && tells_chunk(
        out[i],
        corpus[out[i].id@],
    ) && out[i].match_reason@ == "vector"@ && out[i].index_id is None && (
    out[i].compact_snippet matches Some(s) && s@ == compact_snippet_spec(
        corpus[out[i].id@].content,
    )) by {
        assert(hit_views(kept)[i] == (kept[i].0@, kept[i].1));
        assert(picked[i] == (kept[i].0@, kept[i].1));
        let id = kept[i].0@;
        lemma_tells(
            out[i],
            corpus[id],
            kept[i].1,
            "vector"@,
            Some(compact_snippet_spec(corpus[id].content)),
        );
    }
}

proof fn lemma_filtered_views(
    hits: Seq<(String, u32)>,
    g: spec_fn((String, u32)) -> bool,
    f: spec_fn((Seq<char>, u32)) -> bool,
)
    requires
        forall|h: (String, u32)| #[trigger] g(h) == f((h.0@, h.1)),
    ensures
        hit_views(hits).filter(f) == hit_views(hits.filter(g)),
    decreases hits.len(),
{
    reveal(Seq::filter);
    if hits.len() > 0 {
        let head = hits.drop_last();
        lemma_filtered_views(head, g, f);
        assert(hit_views(hits).drop_last() =~= hit_views(head));
        assert(hit_views(hits).last() == (hits.last().0@, hits.last().1));
        assert(g(hits.last()) == f((hits.last().0@, hits.last().1)));
        assert(hit_views(hits).filter(f) =~= hit_views(hits.filter(g)));
    } else {
        assert(hit_views(hits).filter(f) =~= hit_views(hits.filter(g)));
    }
}

} // verus!
