//! One search over all indexes.
use crate::engine::chunk::{result_views, CodeChunk, CodeChunkView, SearchQuery};
use crate::engine::listing::hit_views;
use crate::engine::registry::IndexId;
use crate::engine::table::Table;
use crate::text::{concat, copy_texts, texts};
use vstd::prelude::*;

verus! {

/// A search over all indexes.
#[derive(Debug, Clone)]
pub struct GlobalSearchRequest {
    pub query: String,
    pub top_k: usize,
    pub full_content: bool,
}

/// Results of a global search that does not say how many it wants.
pub fn default_global_top_k() -> (k: usize)
    ensures
        k == 10,
{
    10
}

/// The query that each index is asked.
pub fn per_index_query(req: &GlobalSearchRequest) -> (q: SearchQuery)
    ensures
        q.text@ == req.query@,
        q.top_k == req.top_k,
        q.expand_graph,
        q.compact == !req.full_content,
{
    SearchQuery {
        text: req.query.clone(),
        top_k: req.top_k,
        expand_graph: true,
        compact: !req.full_content,
    }
}

/// How many hits are kept while the lanes are fused.
pub fn fusion_depth(top_k: usize) -> (n: usize)
    ensures
        n == (if top_k * 4 > usize::MAX {
            usize::MAX
        } else if top_k * 4 < 10 {
            10
        } else {
            (top_k * 4) as usize
        }),
        n >= top_k,
{
    match top_k.checked_mul(4) {
        Some(n) => if n < 10 {
            10
        } else {
            n
        },
        None => usize::MAX,
    }
}

/// The id of a chunk among those of all indexes.
pub open spec fn namespaced(index: Seq<char>, id: Seq<char>) -> Seq<char> {
    index + "::"@ + id
}

fn namespace(index: &str, id: &str) -> (s: String)
    ensures
        s@ == namespaced(index@, id@),
{
    let head = concat(index, "::");
    concat(head.as_str(), id)
}

/// The result marked with the index that it came from.
pub open spec fn tagged(c: CodeChunkView, index: Seq<char>) -> CodeChunkView {
    CodeChunkView { index_id: Some(index), ..c }
}

/// The hits of one index, under their global ids.
pub open spec fn lane_of(index: Seq<char>, results: Seq<CodeChunkView>) -> Seq<(Seq<char>, u32)> {
    results.map_values(|c: CodeChunkView| (namespaced(index, c.id), c.score))
}

/// The results by global id after those of one index were added, in order.
pub open spec fn lookup_with(
    lookup: Map<Seq<char>, CodeChunkView>,
    index: Seq<char>,
    results: Seq<CodeChunkView>,
) -> Map<Seq<char>, CodeChunkView>
    decreases results.len(),
{
    if results.len() == 0 {
        lookup
    } else {
        lookup_with(lookup, index, results.drop_last()).insert(
            namespaced(index, results.last().id),
            tagged(results.last(), index),
        )
    }
}

/// The name and the results of each index.
pub open spec fn answers(v: Seq<(String, Vec<CodeChunk>)>) -> Seq<(Seq<char>, Seq<CodeChunkView>)> {
    v.map_values(|p: (String, Vec<CodeChunk>)| (p.0@, result_views(p.1@)))
}

/// The results by global id, over all indexes in order.
pub open spec fn lookup_of(all: Seq<(Seq<char>, Seq<CodeChunkView>)>) -> Map<
    Seq<char>,
    CodeChunkView,
>
    decreases all.len(),
{
    if all.len() == 0 {
        Map::empty()
    } else {
        lookup_with(lookup_of(all.drop_last()), all.last().0, all.last().1)
    }
}

/// The answers of all indexes, ready to be fused.
pub struct Gathered {
    /// The hits of each index, under their global ids.
    pub lanes: Vec<Vec<(String, u32)>>,
    /// The indexes that answered.
    pub indexes_searched: Vec<String>,
    lookup: Table<CodeChunk>,
}

impl Gathered {
    /// The results by global id.
    pub closed spec fn results(&self) -> Map<Seq<char>, CodeChunkView> {
        self.lookup@.map_values(|c: CodeChunk| c@)
    }

    /// Whether the results can be looked up.
    pub closed spec fn wf(&self) -> bool {
        self.lookup.wf()
    }

    /// The hits of each index.
    pub closed spec fn hits(&self) -> Seq<Seq<(Seq<char>, u32)>> {
        lane_views(self.lanes@)
    }

    /// The indexes that answered.
    pub closed spec fn searched(&self) -> Seq<Seq<char>> {
        texts(self.indexes_searched@)
    }
}

/// The hits of each lane.
pub open spec fn lane_views(v: Seq<Vec<(String, u32)>>) -> Seq<Seq<(Seq<char>, u32)>> {
    v.map_values(|l: Vec<(String, u32)>| hit_views(l@))
}

/// Gathers the answers of all indexes: each result is marked with its index and
/// filed under its global id.
pub fn gather(per_index: Vec<(String, Vec<CodeChunk>)>) -> (g: Gathered)
    ensures
        g.wf(),
        g.hits() == answers(per_index@).map_values(
            |p: (Seq<char>, Seq<CodeChunkView>)| lane_of(p.0, p.1),
        ),
        g.searched() == answers(per_index@).map_values(
            |p: (Seq<char>, Seq<CodeChunkView>)| p.0,
        ),
        g.results() == lookup_of(answers(per_index@)),
{
    let mut lanes: Vec<Vec<(String, u32)>> = Vec::new();
    let mut searched: Vec<String> = Vec::new();
    let mut lookup: Table<CodeChunk> = Table::new();
    let ghost all = answers(per_index@);
    assert(all.take(0) =~= Seq::empty());
    assert(lookup@.map_values(|c: CodeChunk| c@) =~= Map::empty());
    for entry in it: per_index
        invariant
            it.seq() == per_index@,
            all == answers(per_index@),
            lookup.wf(),
            lookup@.map_values(|c: CodeChunk| c@) == lookup_of(all.take(it.index() as int)),
            lanes.len() == it.index(),
            searched.len() == it.index(),
            forall|j: int|
                0 <= j < it.index() ==> hit_views((#[trigger] lanes@[j])@) == lane_of(
                    all[j].0,
                    all[j].1,
                ),
            forall|j: int| 0 <= j < it.index() ==> (#[trigger] searched@[j])@ == all[j].0,
    {
        let ghost n = it.index() as int;
        assert(all.take(n + 1).drop_last() =~= all.take(n));
        assert(all.take(n + 1).last() == all[n]);
        assert(all[n] == (entry.0@, result_views(entry.1@)));
        let (index, results) = entry;
        let ghost base = lookup@.map_values(|c: CodeChunk| c@);
        let ghost views = result_views(results@);
        let mut lane: Vec<(String, u32)> = Vec::new();
        assert(views.take(0) =~= Seq::empty());
        assert(hit_views(lane@) =~= Seq::empty());
        for chunk in jt: results
            invariant
                jt.seq() == results@,
                views == result_views(results@),
                lookup.wf(),
                lookup@.map_values(|c: CodeChunk| c@) == lookup_with(
                    base,
                    index@,
                    views.take(jt.index() as int),
                ),
                lane.len() == jt.index(),
                forall|j: int|
                    0 <= j < jt.index() ==> (#[trigger] lane@[j]).0@ == namespaced(
                        index@,
                        views[j].id,
                    ) && lane@[j].1 == views[j].score,
        {
            let ghost k = jt.index() as int;
            let ghost before = lookup@;
            assert(views.take(k + 1).drop_last() =~= views.take(k));
            assert(views.take(k + 1).last() == chunk@);
            let ghost old_view = chunk@;
            let id = namespace(index.as_str(), chunk.id.as_str());
            lane.push((id.clone(), chunk.score));
            let mut marked = chunk;
            marked.index_id = Some(index.clone());
            assert(marked@ =~= tagged(old_view, index@));
            let ghost key = id@;
            let ghost mv = marked@;
            lookup.insert(id, marked);
            assert(lookup@.map_values(|c: CodeChunk| c@) =~= before.map_values(
                |c: CodeChunk| c@,
            ).insert(key, mv));
        }
        assert(views.take(views.len() as int) =~= views);
        assert(hit_views(lane@) =~= lane_of(index@, views));
        searched.push(index);
        lanes.push(lane);
    }
    assert(all.take(all.len() as int) =~= all);
    let g = Gathered { lanes, indexes_searched: searched, lookup };
    assert(g.hits() =~= all.map_values(|p: (Seq<char>, Seq<CodeChunkView>)| lane_of(p.0, p.1)));
    assert(g.searched() =~= all.map_values(|p: (Seq<char>, Seq<CodeChunkView>)| p.0));
    g
}

/// The result with the score of the fusion.
pub open spec fn rescored(c: CodeChunkView, score: u32) -> CodeChunkView {
    CodeChunkView { score, ..c }
}

/// The results of the fused hits, in order, each result once; and the results
/// that are left.
pub open spec fn pick(
    lookup: Map<Seq<char>, CodeChunkView>,
    fused: Seq<(Seq<char>, u32)>,
) -> (Seq<CodeChunkView>, Map<Seq<char>, CodeChunkView>)
    decreases fused.len(),
{
    if fused.len() == 0 {
        (Seq::empty(), lookup)
    } else {
        let (out, left) = pick(lookup, fused.drop_last());
        let (id, score) = fused.last();
        if left.contains_key(id) {
            (out.push(rescored(left[id], score)), left.remove(id))
        } else {
            (out, left)
        }
    }
}

fn copy_chunk(c: &CodeChunk, score: u32) -> (r: CodeChunk)
    ensures
        r@ == rescored(c@, score),
{
    CodeChunk {
        id: c.id.clone(),
        file: c.file.clone(),
        language: crate::engine::chunk::copy_opt(&c.language),
        start_line: c.start_line,
        end_line: c.end_line,
        content: c.content.clone(),
        function_name: crate::engine::chunk::copy_opt(&c.function_name),
        score,
        compact_snippet: crate::engine::chunk::copy_opt(&c.compact_snippet),
        match_reason: c.match_reason.clone(),
        chunk_type: c.chunk_type.same(),
        calls: crate::text::copy_texts(&c.calls),
        inherits_from: crate::text::copy_texts(&c.inherits_from),
        chunk_depth: c.chunk_depth,
        index_id: crate::engine::chunk::copy_opt(&c.index_id),
    }
}

impl Gathered {
    /// The results of a global search: the first `top_k` of the fused hits, each
    /// with the score of the fusion and marked with its index.
    pub fn into_results(self, fused: &Vec<(String, u32)>, top_k: usize) -> (out: Vec<CodeChunk>)
        requires
            self.wf(),
        ensures
            result_views(out@) == pick(
                self.results(),
                crate::engine::search::first(hit_views(fused@), top_k as int),
            ).0,
    {
        let ghost start = self.results();
        let mut lookup = self.lookup;
        let mut out: Vec<CodeChunk> = Vec::new();
        let n: usize = if fused.len() > top_k {
            top_k
        } else {
            fused.len()
        };
        let ghost all = hit_views(fused@);
        assert(all.take(0) =~= Seq::empty());
        assert(result_views(out@) =~= Seq::empty());
        for i in 0..n
            invariant
                n <= fused.len(),
                all == hit_views(fused@),
                lookup.wf(),
                pick(start, all.take(i as int)) == (
                    result_views(out@),
                    lookup@.map_values(|c: CodeChunk| c@),
                ),
        {
            let ghost before = lookup@;
            let ghost picked = result_views(out@);
            assert(all.take(i + 1).drop_last() =~= all.take(i as int));
            assert(all.take(i + 1).last() == (fused@[i as int].0@, fused@[i as int].1));
            let found = match lookup.get(fused[i].0.as_str()) {
                Some(c) => Some(copy_chunk(c, fused[i].1)),
                None => None,
            };
            if let Some(c) = found {
                let ghost cv = c@;
                lookup.remove(fused[i].0.as_str());
                out.push(c);
                assert(result_views(out@) =~= picked.push(cv));
                assert(lookup@.map_values(|c: CodeChunk| c@) =~= before.map_values(
                    |c: CodeChunk| c@,
                ).remove(fused@[i as int].0@));
            }
        }
        out
    }
}

/// What a global search answers.
pub struct GlobalAnswer {
    pub results: Vec<CodeChunk>,
    /// The indexes that answered.
    pub indexes_searched: Vec<String>,
    /// How many indexes there are.
    pub total_indexes: usize,
}

impl Gathered {
    /// The answer to a global search: its results, the indexes that answered, and
    /// how many there were to ask.
    pub fn into_answer(
        self,
        asked: &Vec<IndexId>,
        fused: &Vec<(String, u32)>,
        top_k: usize,
    ) -> (a: GlobalAnswer)
        requires
            self.wf(),
        ensures
            a.total_indexes == asked.len(),
            texts(a.indexes_searched@) == self.searched(),
            result_views(a.results@) == pick(
                self.results(),
                crate::engine::search::first(hit_views(fused@), top_k as int),
            ).0,
    {
        let indexes_searched = copy_texts(&self.indexes_searched);
        GlobalAnswer {
            results: self.into_results(fused, top_k),
            indexes_searched,
            total_indexes: asked.len(),
        }
    }
}

// ---------------------------------------------------------------------------
// Laws
// ---------------------------------------------------------------------------

/// Whether every result is marked with one of the indexes.
pub open spec fn all_tagged(
    lookup: Map<Seq<char>, CodeChunkView>,
    all: Seq<(Seq<char>, Seq<CodeChunkView>)>,
) -> bool {
    forall|k: Seq<char>| #[trigger] lookup.contains_key(k) ==> tagged_by(lookup[k], all)
}

/// Whether the result is marked with one of the indexes.
pub open spec fn tagged_by(c: CodeChunkView, all: Seq<(Seq<char>, Seq<CodeChunkView>)>) -> bool {
    exists|i: int| 0 <= i < all.len() && c.index_id == Some((#[trigger] all[i]).0)
}

proof fn lemma_lookup_with_tagged(
    lookup: Map<Seq<char>, CodeChunkView>,
    index: Seq<char>,
    results: Seq<CodeChunkView>,
    all: Seq<(Seq<char>, Seq<CodeChunkView>)>,
    i: int,
)
    requires
        all_tagged(lookup, all),
        0 <= i < all.len(),
        all[i].0 == index,
    ensures
        all_tagged(lookup_with(lookup, index, results), all),
    decreases results.len(),
{
    if results.len() > 0 {
        lemma_lookup_with_tagged(lookup, index, results.drop_last(), all, i);
        let c = tagged(results.last(), index);
        assert(c.index_id == Some(all[i].0));
        assert(tagged_by(c, all));
    }
}

proof fn lemma_lookup_tagged(all: Seq<(Seq<char>, Seq<CodeChunkView>)>, n: int)
    requires
        0 <= n <= all.len(),
    ensures
        all_tagged(lookup_of(all.take(n)), all),
    decreases n,
{
    if n > 0 {
        lemma_lookup_tagged(all, n - 1);
        assert(all.take(n).drop_last() =~= all.take(n - 1));
        lemma_lookup_with_tagged(
            lookup_of(all.take(n - 1)),
            all[n - 1].0,
            all[n - 1].1,
            all,
            n - 1,
        );
    } else {
        assert(all.take(0) =~= Seq::empty());
    }
}

proof fn lemma_pick_tagged(
    lookup: Map<Seq<char>, CodeChunkView>,
    fused: Seq<(Seq<char>, u32)>,
    all: Seq<(Seq<char>, Seq<CodeChunkView>)>,
)
    requires
        all_tagged(lookup, all),
    ensures
        all_tagged(pick(lookup, fused).1, all),
        pick(lookup, fused).0.len() <= fused.len(),
        forall|i: int|
            0 <= i < pick(lookup, fused).0.len() ==> tagged_by(
                #[trigger] pick(lookup, fused).0[i],
                all,
            ),
    decreases fused.len(),
{
    if fused.len() > 0 {
        lemma_pick_tagged(lookup, fused.drop_last(), all);
        let (out, left) = pick(lookup, fused.drop_last());
        let (id, score) = fused.last();
        if left.contains_key(id) {
            assert(tagged_by(left[id], all));
            let i = choose|i: int|
                0 <= i < all.len() && left[id].index_id == Some((#[trigger] all[i]).0);
            assert(rescored(left[id], score).index_id == Some(all[i].0));
            assert(tagged_by(rescored(left[id], score), all));
        }
    }
}

/// Every result of a global search is marked with one of the indexes that were
/// searched, and there are no more results than fused hits.
pub proof fn global_results_are_tagged(
    all: Seq<(Seq<char>, Seq<CodeChunkView>)>,
    fused: Seq<(Seq<char>, u32)>,
)
    ensures
        pick(lookup_of(all), fused).0.len() <= fused.len(),
        forall|i: int|
            0 <= i < pick(lookup_of(all), fused).0.len() ==> tagged_by(
                #[trigger] pick(lookup_of(all), fused).0[i],
                all,
            ),
{
    lemma_lookup_tagged(all, all.len() as int);
    assert(all.take(all.len() as int) =~= all);
    lemma_pick_tagged(lookup_of(all), fused, all);
}

/// Chunks of different indexes never share a global id, where no index name
/// holds a colon; chunks of one index never do.
pub proof fn global_ids_do_not_collide(
    index_a: Seq<char>,
    id_a: Seq<char>,
    index_b: Seq<char>,
    id_b: Seq<char>,
)
    requires
        namespaced(index_a, id_a) == namespaced(index_b, id_b),
        index_a == index_b || (!index_a.contains(':') && !index_b.contains(':')),
    ensures
        index_a == index_b,
        id_a == id_b,
{
    reveal_strlit("::");
    let a = namespaced(index_a, id_a);
    let b = namespaced(index_b, id_b);
    assert("::"@.len() == 2 && "::"@[0] == ':');
    assert(a[index_a.len() as int] == ':');
    assert(b[index_b.len() as int] == ':');
    if index_a.len() < index_b.len() {
        assert(index_b[index_a.len() as int] == b[index_a.len() as int]);
        assert(index_b.contains(':'));
    }
    if index_b.len() < index_a.len() {
        assert(index_a[index_b.len() as int] == a[index_b.len() as int]);
        assert(index_a.contains(':'));
    }
    assert forall|i: int| 0 <= i < index_a.len() implies index_a[i] == index_b[i] by {
        assert(a[i] == index_a[i]);
        assert(b[i] == index_b[i]);
    }
    assert(index_a =~= index_b);
    let n = index_a.len() + 2;
    assert(a.len() == n + id_a.len());
    assert(b.len() == n + id_b.len());
    assert forall|i: int| 0 <= i < id_a.len() implies id_a[i] == id_b[i] by {
        assert(a[n + i] == id_a[i]);
        assert(b[n + i] == id_b[i]);
    }
    assert(id_a =~= id_b);
}

} // verus!
