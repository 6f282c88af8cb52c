//! The stages of a search around the scoring lanes.
//!
//! Scoring is done elsewhere: the lanes hand in their hits with scores, and the
//! fusion of the lanes its list. What goes in, what is put first, what the graph
//! adds and what comes out is decided here.
use crate::engine::caches::value_of;
use crate::engine::chunk::{
    build_compact_snippet, code_chunk_of, compact_snippet_spec, compute_match_reason,
    match_reason_spec, raw_to_code_chunk, result_views, CodeChunk, CodeChunkView, EntityType,
    RawChunkView, RawEntity, SearchQuery,
};
use crate::engine::indexer::{vector_views, CodeIndexer, IndexView};
use crate::engine::intent::{weights_spec, QueryIntent};
use crate::engine::kg::{contains_id, has_id, is_expansion, is_number, kg_expand};
use crate::engine::listing::hit_views;
use crate::text::{
    contains_char, eq_ignore_ascii_case, same_ignoring_ascii_case, same_text, trim, trim_spec,
};
use vstd::prelude::*;

verus! {

/// How many times more hits than wanted are asked of each lane.
pub const HNSW_OVERSAMPLE: usize = 4;

/// The hits to ask of each lane.
pub fn search_want(top_k: usize) -> (n: usize)
    ensures
        n == (if top_k * HNSW_OVERSAMPLE <= usize::MAX {
            (top_k * HNSW_OVERSAMPLE) as usize
        } else {
            usize::MAX
        }),
        n >= top_k,
{
    match top_k.checked_mul(HNSW_OVERSAMPLE) {
        Some(n) => n,
        None => usize::MAX,
    }
}

// ---------------------------------------------------------------------------
// Exact names
// ---------------------------------------------------------------------------

/// Whether the query can be the name of a symbol: one word.
pub open spec fn is_one_word(query: Seq<char>) -> bool {
    trim_spec(query).len() > 0 && !trim_spec(query).contains(' ')
}

/// Whether the entity is a type or a module with the name, in any ASCII case.
pub open spec fn has_name(e: RawEntity, name: Seq<char>) -> bool {
    (e.entity_type is NamedType || e.entity_type is ModulePath) && same_ignoring_ascii_case(
        e.text@,
        name,
    )
}

/// Whether the chunk lies in the file and holds the line.
pub open spec fn holds_line(c: RawChunkView, file: Seq<char>, line: usize) -> bool {
    c.file == file && c.start_line <= line <= c.end_line
}

/// Whether the `i`-th entity of the file has the name and lies in the chunk.
pub open spec fn names_chunk(
    v: IndexView,
    name: Seq<char>,
    id: Seq<char>,
    file: Seq<char>,
    i: int,
) -> bool {
    &&& v.corpus.contains_key(id)
    &&& v.entities.contains_key(file)
    &&& 0 <= i < v.entities[file].len()
    &&& has_name(v.entities[file][i], name)
    &&& holds_line(v.corpus[id], file, v.entities[file][i].line)
}

/// Whether an entity with the name lies in the chunk.
pub open spec fn is_exact_hit(v: IndexView, name: Seq<char>, id: Seq<char>) -> bool {
    exists|file: Seq<char>, i: int| #[trigger] names_chunk(v, name, id, file, i)
}

fn names(e: &RawEntity, name: &str) -> (r: bool)
    ensures
        r == has_name(*e, name@),
{
    let kind = match e.entity_type {
        EntityType::NamedType => true,
        EntityType::ModulePath => true,
        EntityType::Other(_) => false,
    };
    kind && eq_ignore_ascii_case(e.text.as_str(), name)
}

/// The hits without those of one chunk.
pub open spec fn drop_id(hits: Seq<(Seq<char>, u32)>, id: Seq<char>) -> Seq<(Seq<char>, u32)>
    decreases hits.len(),
{
    if hits.len() == 0 {
        hits
    } else if hits.last().0 == id {
        drop_id(hits.drop_last(), id)
    } else {
        drop_id(hits.drop_last(), id).push(hits.last())
    }
}

/// Puts a hit first, in place of any other hit of the same chunk.
pub fn put_first(hits: &Vec<(String, u32)>, id: String, score: u32) -> (r: Vec<(String, u32)>)
    ensures
        hit_views(r@) == seq![(id@, score)] + drop_id(hit_views(hits@), id@),
{
    let ghost all = hit_views(hits@);
    let ghost hit = id@;
    let key = id.clone();
    let mut r: Vec<(String, u32)> = Vec::new();
    r.push((id, score));
    assert(all.take(0) =~= Seq::empty());
    assert(hit_views(r@) =~= seq![(hit, score)] + drop_id(all.take(0), hit));
    for i in 0..hits.len()
        invariant
            all == hit_views(hits@),
            key@ == hit,
            hit_views(r@) == seq![(hit, score)] + drop_id(all.take(i as int), hit),
    {
        let ghost before = hit_views(r@);
        assert(all.take(i + 1).drop_last() =~= all.take(i as int));
        assert(all.take(i + 1).last() == (hits@[i as int].0@, hits@[i as int].1));
        if !same_text(hits[i].0.as_str(), key.as_str()) {
            r.push((hits[i].0.clone(), hits[i].1));
            assert(hit_views(r@) =~= before.push((hits@[i as int].0@, hits@[i as int].1)));
            assert(before.push((hits@[i as int].0@, hits@[i as int].1)) =~= seq![(hit, score)]
                + drop_id(all.take(i + 1), hit));
        }
    }
    assert(all.take(all.len() as int) =~= all);
    r
}

impl CodeIndexer {
    fn chunk_on_line(&self, file: &str, line: usize) -> (r: Option<String>)
        requires
            self.wf(),
        ensures
            match r {
                Some(id) => self@.corpus.contains_key(id@) && holds_line(
                    self@.corpus[id@],
                    file@,
                    line,
                ),
                None => forall|k: Seq<char>| #[trigger]
                    self@.corpus.contains_key(k) ==> !holds_line(self@.corpus[k], file@, line),
            },
    {
        let n: usize = self.chunk_count();
        for i in 0..n
            invariant
                self.wf(),
                n == self.ids().len(),
                forall|j: int|
                    0 <= j < i ==> !holds_line(
                        self@.corpus[#[trigger] self.ids()[j]],
                        file@,
                        line,
                    ),
        {
            let c = self.chunk_at(i);
            if same_text(c.file.as_str(), file) && line >= c.start_line && line <= c.end_line {
                return Some(c.id.clone());
            }
        }
        proof {
            self.index_keeps_its_limits();
            assert forall|k: Seq<char>| #[trigger]
                self@.corpus.contains_key(k) implies !holds_line(self@.corpus[k], file@, line) by {
                let p = choose|p: int| 0 <= p < self.ids().len() && #[trigger] self.ids()[p] == k;
                assert(!holds_line(self@.corpus[self.ids()[p]], file@, line));
            }
        }
        None
    }

    /// A chunk in which a type or module with exactly the query's name is found.
    /// Nothing where the query is not one word or no such chunk exists.
    pub fn entity_exact_match(&self, query: &str) -> (r: Option<String>)
        requires
            self.wf(),
        ensures
            match r {
                Some(id) => is_one_word(query@) && is_exact_hit(self@, trim_spec(query@), id@),
                None => !is_one_word(query@) || forall|id: Seq<char>|
                    !#[trigger] is_exact_hit(self@, trim_spec(query@), id),
            },
    {
        let needle = trim(query);
        if needle.as_str().is_empty() || contains_char(needle.as_str(), ' ') {
            return None;
        }
        let files: usize = self.entity_file_count();
        for f in 0..files
            invariant
                self.wf(),
                needle@ == trim_spec(query@),
                is_one_word(query@),
                files == self.entity_files().len(),
                forall|g: int, i: int, id: Seq<char>|
                    0 <= g < f ==> !#[trigger] names_chunk(
                        self@,
                        needle@,
                        id,
                        self.entity_files()[g],
                        i,
                    ),
        {
            let file = self.entity_file_at(f);
            let ents = self.entities_at(f);
            for i in 0..ents.len()
                invariant
                    self.wf(),
                    needle@ == trim_spec(query@),
                    is_one_word(query@),
                    f < self.entity_files().len(),
                    file@ == self.entity_files()[f as int],
                    self@.entities.contains_key(file@),
                    ents@ == self@.entities[file@],
                    forall|j: int, id: Seq<char>|
                        0 <= j < i ==> !#[trigger] names_chunk(self@, needle@, id, file@, j),
            {
                if names(&ents[i], needle.as_str()) {
                    match self.chunk_on_line(file.as_str(), ents[i].line) {
                        Some(id) => {
                            assert(names_chunk(self@, needle@, id@, file@, i as int));
                            return Some(id);
                        },
                        None => {},
                    }
                }
            }
        }
        proof {
            self.entity_files_are_walked();
            assert forall|id: Seq<char>| !#[trigger] is_exact_hit(self@, needle@, id) by {
                if is_exact_hit(self@, needle@, id) {
                    let (file, i) = choose|file: Seq<char>, i: int| #[trigger]
                        names_chunk(self@, needle@, id, file, i);
                    assert(self@.entities.contains_key(file));
                    let g = choose|g: int|
                        0 <= g < self.entity_files().len() && #[trigger] self.entity_files()[g]
                            == file;
                    assert(names_chunk(self@, needle@, id, self.entity_files()[g], i));
                }
            }
        }
        None
    }

    /// Puts a chunk with exactly the query's name first among the lexical hits,
    /// where the intent prefers exact names and there is such a chunk. Any other
    /// hits stay as they are.
    pub fn inject_entity_exact_match(
        &self,
        intent: QueryIntent,
        query_text: &str,
        injected_score: u32,
        bm25_results: &mut Vec<(String, u32)>,
    )
        requires
            self.wf(),
        ensures
            is_injection(
                self@,
                intent,
                query_text@,
                injected_score,
                hit_views(old(bm25_results)@),
                hit_views(final(bm25_results)@),
            ),
    {
        if !intent.prefers_exact_name() {
            return ;
        }
        let ghost before = hit_views(bm25_results@);
        if let Some(hit) = self.entity_exact_match(query_text) {
            let ghost id = hit@;
            let r = put_first(bm25_results, hit, injected_score);
            *bm25_results = r;
            assert(is_exact_hit(self@, trim_spec(query_text@), id));
            assert(injects(
                self@,
                query_text@,
                injected_score,
                before,
                hit_views(bm25_results@),
                id,
            ));
        }
    }

    /// The embeddings at hand for the chunks of a fused list, in its order;
    /// nothing where no embedding is at hand at all, in which case the list is
    /// not rearranged.
    pub fn mmr_snapshot(&self, fused: &Vec<(String, u32)>) -> (r: Option<Vec<(String, Vec<u32>)>>)
        ensures
            match r {
                Some(s) => self@.embeddings.len() > 0 && vector_views(s@) == snapshot_spec(
                    self@.embeddings,
                    hit_views(fused@),
                ),
                None => self@.embeddings.len() == 0,
            },
    {
        if self.no_embeddings() {
            return None;
        }
        let mut out: Vec<(String, Vec<u32>)> = Vec::new();
        let ghost all = hit_views(fused@);
        assert(all.take(0) =~= Seq::empty());
        assert(vector_views(out@) =~= Seq::empty());
        for i in 0..fused.len()
            invariant
                all == hit_views(fused@),
                vector_views(out@) == snapshot_spec(self@.embeddings, all.take(i as int)),
        {
            let ghost before = vector_views(out@);
            assert(all.take(i + 1).drop_last() =~= all.take(i as int));
            assert(all.take(i + 1).last() == (fused@[i as int].0@, fused@[i as int].1));
            if let Some(e) = self.cached_embedding(fused[i].0.as_str()) {
                let ghost bits = e@;
                out.push((fused[i].0.clone(), e));
                assert(vector_views(out@) =~= before.push((fused@[i as int].0@, bits)));
            }
        }
        assert(all.take(all.len() as int) =~= all);
        Some(out)
    }

    /// The results of a search: the first `top_k` of the list, as far as the
    /// index holds them, each with the reason it is there and, where the query
    /// asks for it, the head of its content.
    pub fn materialize_search_results(
        &self,
        all: &Vec<(String, u32)>,
        hnsw_results: &Vec<(String, u32)>,
        bm25_results: &Vec<(String, u32)>,
        kg_results: &Vec<(String, u32)>,
        query: &SearchQuery,
    ) -> (out: Vec<CodeChunk>)
        requires
            self.wf(),
        ensures
            result_views(out@) == materialize_spec(
                self@.corpus,
                first(hit_views(all@), query.top_k as int),
                hnsw_results@,
                bm25_results@,
                kg_results@,
                query.compact,
            ),
            out.len() <= query.top_k,
    {
        let mut out: Vec<CodeChunk> = Vec::new();
        let ghost views = hit_views(all@);
        let n: usize = if all.len() > query.top_k {
            query.top_k
        } else {
            all.len()
        };
        assert(views.take(0) =~= Seq::empty());
        assert(result_views(out@) =~= Seq::empty());
        for i in 0..n
            invariant
                self.wf(),
                n <= all.len(),
                out.len() <= i,
                views == hit_views(all@),
                result_views(out@) == materialize_spec(
                    self@.corpus,
                    views.take(i as int),
                    hnsw_results@,
                    bm25_results@,
                    kg_results@,
                    query.compact,
                ),
        {
            let ghost before = result_views(out@);
            assert(views.take(i + 1).drop_last() =~= views.take(i as int));
            assert(views.take(i + 1).last() == (all@[i as int].0@, all@[i as int].1));
            let id = all[i].0.as_str();
            if let Some(raw) = self.chunk(id) {
                let reason = compute_match_reason(
                    contains_id(hnsw_results, id),
                    contains_id(bm25_results, id),
                    contains_id(kg_results, id),
                );
                let snippet = if query.compact {
                    Some(build_compact_snippet(raw.content.as_str()))
                } else {
                    None
                };
                let c = raw_to_code_chunk(raw, all[i].1, reason, snippet);
                let ghost cv = c@;
                out.push(c);
                assert(result_views(out@) =~= before.push(cv));
            }
        }
        out
    }

    /// The last stages of a search, from the fused list to the results: adds
    /// what the graph yields where both intent and query ask for it, and hands
    /// out the results.
    pub fn finish_search(
        &self,
        query: &SearchQuery,
        intent: QueryIntent,
        fused: Vec<(String, u32)>,
        hnsw_results: &Vec<(String, u32)>,
        bm25_results: &Vec<(String, u32)>,
        node_count: usize,
        derived: &Vec<(String, u32)>,
    ) -> (out: Vec<CodeChunk>)
        requires
            self.wf(),
            forall|i: int| 0 <= i < derived.len() ==> is_number((#[trigger] derived@[i]).1),
        ensures
            exists|kg: Seq<(String, u32)>| #[trigger]
                is_graph_part(query.expand_graph, intent, fused@, node_count, derived@, kg)
                    && result_views(out@) == materialize_spec(
                    self@.corpus,
                    first(hit_views(fused@) + hit_views(kg), query.top_k as int),
                    hnsw_results@,
                    bm25_results@,
                    kg,
                    query.compact,
                ),
            out.len() <= query.top_k,
    {
        let use_kg_first = intent.weights().2;
        let (all, kg) = expand_with_kg(
            fused,
            use_kg_first,
            query.expand_graph,
            node_count,
            derived,
        );
        assert(is_graph_part(query.expand_graph, intent, fused@, node_count, derived@, kg@));
        self.materialize_search_results(&all, hnsw_results, bm25_results, &kg, query)
    }
}

/// Adds to the fused list what the graph yields for it, where that is asked for:
/// the whole list, and the part that the graph added.
pub fn expand_with_kg(
    fused: Vec<(String, u32)>,
    use_kg_first: bool,
    expand_graph: bool,
    node_count: usize,
    derived: &Vec<(String, u32)>,
) -> (r: (Vec<(String, u32)>, Vec<(String, u32)>))
    requires
        forall|i: int| 0 <= i < derived.len() ==> is_number((#[trigger] derived@[i]).1),
    ensures
        is_expansion_if(use_kg_first && expand_graph, fused@, node_count, derived@, r.1@),
        hit_views(r.0@) == hit_views(fused@) + hit_views(r.1@),
{
    if !(use_kg_first && expand_graph) {
        let none: Vec<(String, u32)> = Vec::new();
        assert(hit_views(fused@) + hit_views(none@) =~= hit_views(fused@));
        return (fused, none);
    }
    let expanded = kg_expand(node_count, &fused, derived);
    let mut all = fused;
    for i in 0..expanded.len()
        invariant
            hit_views(all@) == hit_views(fused@) + hit_views(expanded@).take(i as int),
    {
        let ghost before = hit_views(all@);
        all.push((expanded[i].0.clone(), expanded[i].1));
        assert(hit_views(all@) =~= before.push((expanded@[i as int].0@, expanded@[i as int].1)));
        assert(hit_views(fused@) + hit_views(expanded@).take(i + 1) =~= before.push(
            hit_views(expanded@)[i as int],
        ));
    }
    assert(hit_views(expanded@).take(expanded@.len() as int) =~= hit_views(expanded@));
    (all, expanded)
}

/// Whether `kg` is what the graph adds: nothing where it is not asked, or where
/// the graph or the list is empty.
pub open spec fn is_expansion_if(
    asked: bool,
    fused: Seq<(String, u32)>,
    node_count: usize,
    derived: Seq<(String, u32)>,
    kg: Seq<(String, u32)>,
) -> bool {
    if !asked || node_count == 0 || fused.len() == 0 {
        kg.len() == 0
    } else {
        is_expansion(fused, derived, kg)
    }
}

/// Whether `kg` is what the graph adds to the list of a query of this intent.
pub open spec fn is_graph_part(
    expand_graph: bool,
    intent: QueryIntent,
    fused: Seq<(String, u32)>,
    node_count: usize,
    derived: Seq<(String, u32)>,
    kg: Seq<(String, u32)>,
) -> bool {
    is_expansion_if(weights_spec(intent).2 && expand_graph, fused, node_count, derived, kg)
}

/// Whether `after` is `before` with the hit of the chunk `id` put first, a chunk
/// with exactly the query's name.
pub open spec fn injects(
    v: IndexView,
    query: Seq<char>,
    score: u32,
    before: Seq<(Seq<char>, u32)>,
    after: Seq<(Seq<char>, u32)>,
    id: Seq<char>,
) -> bool {
    is_exact_hit(v, trim_spec(query), id) && after == seq![(id, score)] + drop_id(before, id)
}

/// Whether `after` are the lexical hits `before` with a chunk of exactly the
/// query's name first, where the intent prefers that and there is one.
pub open spec fn is_injection(
    v: IndexView,
    intent: QueryIntent,
    query: Seq<char>,
    score: u32,
    before: Seq<(Seq<char>, u32)>,
    after: Seq<(Seq<char>, u32)>,
) -> bool {
    if (intent == QueryIntent::Definition || intent == QueryIntent::Unknown) && is_one_word(query)
        && (exists|id: Seq<char>| #[trigger] is_exact_hit(v, trim_spec(query), id)) {
        exists|id: Seq<char>| #[trigger] injects(v, query, score, before, after, id)
    } else {
        after == before
    }
}

/// The embeddings at hand for the hits, in order.
pub open spec fn snapshot_spec(
    embeddings: Seq<(Seq<char>, Seq<u32>)>,
    hits: Seq<(Seq<char>, u32)>,
) -> Seq<(Seq<char>, Seq<u32>)>
    decreases hits.len(),
{
    if hits.len() == 0 {
        Seq::empty()
    } else {
        let before = snapshot_spec(embeddings, hits.drop_last());
        match value_of(embeddings, hits.last().0) {
            Some(e) => before.push((hits.last().0, e)),
            None => before,
        }
    }
}

/// The first `n` hits, or all where there are fewer.
pub open spec fn first(hits: Seq<(Seq<char>, u32)>, n: int) -> Seq<(Seq<char>, u32)> {
    if hits.len() > n {
        hits.take(n)
    } else {
        hits.take(hits.len() as int)
    }
}

/// The result for one hit.
pub open spec fn result_of(
    corpus: Map<Seq<char>, RawChunkView>,
    hit: (Seq<char>, u32),
    hnsw: Seq<(String, u32)>,
    bm25: Seq<(String, u32)>,
    kg: Seq<(String, u32)>,
    compact: bool,
) -> CodeChunkView {
    code_chunk_of(
        corpus[hit.0],
        hit.1,
        match_reason_spec(has_id(hnsw, hit.0), has_id(bm25, hit.0), has_id(kg, hit.0)),
        if compact {
            Some(compact_snippet_spec(corpus[hit.0].content))
        } else {
            None
        },
    )
}

/// The results for the hits that the corpus holds, in order.
pub open spec fn materialize_spec(
    corpus: Map<Seq<char>, RawChunkView>,
    hits: Seq<(Seq<char>, u32)>,
    hnsw: Seq<(String, u32)>,
    bm25: Seq<(String, u32)>,
    kg: Seq<(String, u32)>,
    compact: bool,
) -> Seq<CodeChunkView>
    decreases hits.len(),
{
    if hits.len() == 0 {
        Seq::empty()
    } else {
        let before = materialize_spec(corpus, hits.drop_last(), hnsw, bm25, kg, compact);
        if corpus.contains_key(hits.last().0) {
            before.push(result_of(corpus, hits.last(), hnsw, bm25, kg, compact))
        } else {
            before
        }
    }
}

// ---------------------------------------------------------------------------
// Laws
// ---------------------------------------------------------------------------

/// Every result is a chunk of the index, there are no more results than asked
/// for, and a snippet is there exactly where it was asked for.
pub proof fn results_come_from_the_index(
    corpus: Map<Seq<char>, RawChunkView>,
    hits: Seq<(Seq<char>, u32)>,
    hnsw: Seq<(String, u32)>,
    bm25: Seq<(String, u32)>,
    kg: Seq<(String, u32)>,
    compact: bool,
)
    requires
        forall|k: Seq<char>| #[trigger] corpus.contains_key(k) ==> corpus[k].id == k,
    ensures
        materialize_spec(corpus, hits, hnsw, bm25, kg, compact).len() <= hits.len(),
        forall|i: int|
            0 <= i < materialize_spec(corpus, hits, hnsw, bm25, kg, compact).len() ==> ({
                let r = #[trigger] materialize_spec(corpus, hits, hnsw, bm25, kg, compact)[i];
                &&& corpus.contains_key(r.id)
                &&& r.content == corpus[r.id].content
                &&& r.compact_snippet is Some == compact
                &&& r.index_id is None
            }),
    decreases hits.len(),
{
    if hits.len() > 0 {
        results_come_from_the_index(corpus, hits.drop_last(), hnsw, bm25, kg, compact);
    }
}

/// Where the graph added nothing, no result is put down to the graph: so it is
/// with every query that does not ask for expansion, and every intent other than
/// looking for usages.
pub proof fn without_expansion_no_result_is_put_down_to_the_graph(
    corpus: Map<Seq<char>, RawChunkView>,
    hits: Seq<(Seq<char>, u32)>,
    hnsw: Seq<(String, u32)>,
    bm25: Seq<(String, u32)>,
    kg: Seq<(String, u32)>,
    compact: bool,
    expand_graph: bool,
    intent: QueryIntent,
    fused: Seq<(String, u32)>,
    node_count: usize,
    derived: Seq<(String, u32)>,
)
    requires
        is_graph_part(expand_graph, intent, fused, node_count, derived, kg),
        !expand_graph || intent != QueryIntent::Usage,
    ensures
        forall|i: int|
            0 <= i < materialize_spec(corpus, hits, hnsw, bm25, kg, compact).len() ==> (
            #[trigger] materialize_spec(corpus, hits, hnsw, bm25, kg, compact)[i]).match_reason
                != "hybrid+kg"@,
    decreases hits.len(),
{
    reveal_strlit("hybrid");
    reveal_strlit("vector");
    reveal_strlit("bm25");
    reveal_strlit("hybrid+kg");
    reveal_strlit("fallback");
    assert("hybrid"@.len() == 6 && "vector"@.len() == 6 && "bm25"@.len() == 4 && "hybrid+kg"@.len()
        == 9 && "fallback"@.len() == 8);
    assert(kg.len() == 0);
    assert forall|id: Seq<char>| !has_id(kg, id) by {
    }
    if hits.len() > 0 {
        without_expansion_no_result_is_put_down_to_the_graph(
            corpus,
            hits.drop_last(),
            hnsw,
            bm25,
            kg,
            compact,
            expand_graph,
            intent,
            fused,
            node_count,
            derived,
        );
    }
}

/// The chunk with exactly the query's name is the first lexical hit, and occurs
/// only once among them.
pub proof fn exact_name_is_the_first_lexical_hit(
    v: IndexView,
    query: Seq<char>,
    score: u32,
    before: Seq<(Seq<char>, u32)>,
    after: Seq<(Seq<char>, u32)>,
    id: Seq<char>,
)
    requires
        injects(v, query, score, before, after, id),
    ensures
        after[0] == (id, score),
        forall|i: int| 0 < i < after.len() ==> (#[trigger] after[i]).0 != id,
{
    lemma_drop_id(before, id);
    let rest = drop_id(before, id);
    assert forall|i: int| 0 < i < after.len() implies (#[trigger] after[i]).0 != id by {
        assert(after[i] == rest[i - 1]);
    }
}

proof fn lemma_drop_id(hits: Seq<(Seq<char>, u32)>, id: Seq<char>)
    ensures
        forall|i: int| 0 <= i < drop_id(hits, id).len() ==> (#[trigger] drop_id(hits, id)[i]).0 != id,
    decreases hits.len(),
{
    if hits.len() > 0 {
        lemma_drop_id(hits.drop_last(), id);
        let rest = drop_id(hits.drop_last(), id);
        let all = drop_id(hits, id);
        assert forall|i: int| 0 <= i < all.len() implies (#[trigger] all[i]).0 != id by {
            if i < rest.len() {
                assert(all[i] == rest[i]);
            }
        }
    }
}

} // verus!
