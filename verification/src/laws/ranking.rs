//! What goes into a search beside the scores: exact names, the graph, embeddings.
use crate::engine::caches::value_of;
use crate::engine::chunk::RawEntity;
use crate::engine::indexer::IndexView;
use crate::engine::intent::{edge_kinds_spec, weights_spec, EdgeKind, QueryIntent};
use crate::engine::kg::{has_id, is_best_at, is_best_score, is_expansion, result_key, score_rank};
use crate::engine::listing::hit_views;
use crate::engine::search::{
    drop_id, has_name, injects, is_exact_hit, is_graph_part, is_injection, is_one_word,
    names_chunk, snapshot_spec,
};
use crate::laws::selection::{case_of_ascii_letters_does_not_count, same_word};
use crate::laws::text::{comes_before, keys_are_ordered_by_text};
use crate::sorting::lex_le;
use crate::text::trim_spec;
use vstd::prelude::*;

verus! {

// ---------------------------------------------------------------------------
// Intents
// ---------------------------------------------------------------------------

/// Whether the relation is one along which the intent expands the graph.
pub open spec fn follows(intent: QueryIntent, kind: EdgeKind) -> bool {
    match kind {
        EdgeKind::Implements => intent == QueryIntent::Definition,
        EdgeKind::Aliases => intent == QueryIntent::Definition,
        EdgeKind::UsesType => intent == QueryIntent::Definition,
        EdgeKind::CallsFunction => intent == QueryIntent::Usage || intent == QueryIntent::Unknown,
        EdgeKind::CalledByFunction => intent == QueryIntent::Usage || intent
            == QueryIntent::Unknown,
        EdgeKind::TestedBy => intent == QueryIntent::Usage,
        EdgeKind::CoOccursInTest => intent == QueryIntent::Usage,
        EdgeKind::ReferencesConcept => intent == QueryIntent::Conceptual,
        EdgeKind::Documents => intent == QueryIntent::Conceptual,
        EdgeKind::RaisesError => intent == QueryIntent::BugDebt,
        EdgeKind::ErrorDescribes => intent == QueryIntent::BugDebt,
        EdgeKind::Configures => intent == QueryIntent::BugDebt,
    }
}

/// Calls serve those who look for usages, or for nothing in particular; every other
/// relation serves one intent. No relation is followed twice.
pub proof fn every_relation_serves_its_intent(intent: QueryIntent, kind: EdgeKind)
    ensures
        edge_kinds_spec(intent).contains(kind) <==> follows(intent, kind),
        edge_kinds_spec(intent).no_duplicates(),
{
    let kinds = edge_kinds_spec(intent);
    if follows(intent, kind) {
        let n = kinds.len();
        assert(n >= 2);
        assert(kinds[0] == kind || kinds[1] == kind || kinds[2] == kind || kinds[3] == kind);
        assert(kinds.contains(kind));
    }
}

/// The lexical lane weighs most with bugs and definitions, the vector lane with
/// concepts; only usages expand the graph, and only they weigh both lanes the same.
pub proof fn weights_suit_the_intent(intent: QueryIntent)
    ensures
        weights_spec(intent).2 <==> intent == QueryIntent::Usage,
        weights_spec(intent).0 == weights_spec(intent).1 <==> intent == QueryIntent::Usage,
        weights_spec(intent).0 > weights_spec(intent).1 <==> intent == QueryIntent::Conceptual
            || intent == QueryIntent::Unknown,
        weights_spec(intent).0 + weights_spec(intent).1 == 10,
        weights_spec(QueryIntent::Conceptual).0 > weights_spec(QueryIntent::Unknown).0,
        weights_spec(QueryIntent::BugDebt).1 > weights_spec(QueryIntent::Definition).1,
{
}

// ---------------------------------------------------------------------------
// The graph
// ---------------------------------------------------------------------------

/// Whether the number with the bits `a` is larger than the one with the bits `b`:
/// a sign bit, and behind it the magnitude.
pub open spec fn is_larger(a: u32, b: u32) -> bool {
    let top = 0x8000_0000int;
    if a < top && b < top {
        a > b
    } else if a >= top && b >= top {
        a < b
    } else if a < top {
        !(a == 0 && b == top)
    } else {
        false
    }
}

/// Scores are ordered as the numbers that their bits stand for.
pub proof fn ranks_order_the_scores(a: u32, b: u32)
    ensures
        score_rank(a) > score_rank(b) <==> is_larger(a, b),
{
}

/// Whether one of the neighbours has the id and the score, and none with that id
/// has a larger one.
pub open spec fn is_best_of(derived: Seq<(String, u32)>, id: Seq<char>, score: u32) -> bool {
    &&& exists|i: int|
        0 <= i < derived.len() && (#[trigger] derived[i]).0@ == id && derived[i].1 == score
    &&& forall|j: int|
        0 <= j < derived.len() && (#[trigger] derived[j]).0@ == id ==> !is_larger(
            derived[j].1,
            score,
        )
}

/// Whether one of the entries has the id.
pub open spec fn occurs(id: Seq<char>, s: Seq<(String, u32)>) -> bool {
    exists|i: int| 0 <= i < s.len() && (#[trigger] s[i]).0@ == id
}

/// Whether the graph adds to the list `fused` exactly what it should: every
/// neighbour that is not on the list, once, with its best score, the larger scores
/// first and equal ones by id.
pub open spec fn adds_every_neighbour(
    fused: Seq<(String, u32)>,
    derived: Seq<(String, u32)>,
    kg: Seq<(String, u32)>,
) -> bool {
    &&& forall|j: int|
        0 <= j < derived.len() ==> occurs((#[trigger] derived[j]).0@, fused) || occurs(
            derived[j].0@,
            kg,
        )
    &&& forall|i: int|
        0 <= i < kg.len() ==> !occurs((#[trigger] kg[i]).0@, fused) && is_best_of(
            derived,
            kg[i].0@,
            kg[i].1,
        )
    &&& forall|i: int, j: int|
        0 <= i < j < kg.len() ==> ranks_before(#[trigger] kg[i], #[trigger] kg[j])
}

/// Whether the entry has the larger score, or an equal one and the smaller id.
pub open spec fn ranks_before(a: (String, u32), b: (String, u32)) -> bool {
    is_larger(a.1, b.1) || (!is_larger(b.1, a.1) && comes_before(a.0@, b.0@))
}

proof fn lemma_ranks(a: (String, u32), b: (String, u32))
    requires
        a.0@ != b.0@,
        lex_le(result_key(a.0@, a.1), result_key(b.0@, b.1)),
    ensures
        ranks_before(a, b),
{
    let k = result_key(a.0@, a.1);
    let l = result_key(b.0@, b.1);
    ranks_order_the_scores(a.1, b.1);
    ranks_order_the_scores(b.1, a.1);
    if k[0] == l[0] {
        let none = Seq::<u64>::empty();
        assert(k.skip(1) =~= crate::paths::text_key(a.0@) + none);
        assert(l.skip(1) =~= crate::paths::text_key(b.0@) + none);
        keys_are_ordered_by_text(a.0@, none, b.0@, none);
    }
}

proof fn lemma_best_of(derived: Seq<(String, u32)>, id: Seq<char>, score: u32)
    requires
        is_best_score(derived, derived.len() as int, id, score),
    ensures
        is_best_of(derived, id, score),
{
    let i = choose|i: int| #[trigger]
        is_best_at(derived, derived.len() as int, i) && derived[i].0@ == id && derived[i].1
            == score;
    assert forall|j: int|
        0 <= j < derived.len() && (#[trigger] derived[j]).0@ == id implies !is_larger(
        derived[j].1,
        score,
    ) by {
        ranks_order_the_scores(derived[j].1, score);
        assert(derived[j].0@ == derived[i].0@);
    }
    assert(derived[i].0@ == id);
}

/// Where the query is after usages and asks for expansion, the graph adds every
/// neighbour of the results; to any other search it adds nothing.
pub proof fn graph_is_expanded_for_usages(
    expand_graph: bool,
    intent: QueryIntent,
    fused: Seq<(String, u32)>,
    node_count: usize,
    derived: Seq<(String, u32)>,
    kg: Seq<(String, u32)>,
)
    requires
        is_graph_part(expand_graph, intent, fused, node_count, derived, kg),
    ensures
        intent == QueryIntent::Usage && expand_graph && node_count > 0 && fused.len() > 0
            ==> adds_every_neighbour(fused, derived, kg),
        !(intent == QueryIntent::Usage && expand_graph && node_count > 0 && fused.len() > 0)
            ==> kg.len() == 0,
{
    if intent == QueryIntent::Usage && expand_graph && node_count > 0 && fused.len() > 0 {
        assert(is_expansion(fused, derived, kg));
        assert forall|j: int| 0 <= j < derived.len() implies occurs(
            (#[trigger] derived[j]).0@,
            fused,
        ) || occurs(derived[j].0@, kg) by {
            if !has_id(fused, derived[j].0@) {
                assert(has_id(kg, derived[j].0@));
            }
        }
        assert forall|i: int| 0 <= i < kg.len() implies !occurs((#[trigger] kg[i]).0@, fused)
            && is_best_of(derived, kg[i].0@, kg[i].1) by {
            lemma_best_of(derived, kg[i].0@, kg[i].1);
        }
        assert forall|i: int, j: int| 0 <= i < j < kg.len() implies ranks_before(
            #[trigger] kg[i],
            #[trigger] kg[j],
        ) by {
            lemma_ranks(kg[i], kg[j]);
        }
    }
}

// ---------------------------------------------------------------------------
// Exact names
// ---------------------------------------------------------------------------

/// Whether the `i`-th entity of the chunk's file is a type or a module of that name,
/// in any ASCII case, on one of the chunk's lines.
pub open spec fn is_named(v: IndexView, name: Seq<char>, id: Seq<char>, i: int) -> bool {
    &&& v.corpus.contains_key(id)
    &&& v.entities.contains_key(v.corpus[id].file)
    &&& 0 <= i < v.entities[v.corpus[id].file].len()
    &&& ({
        let e: RawEntity = v.entities[v.corpus[id].file][i];
        &&& e.entity_type is NamedType || e.entity_type is ModulePath
        &&& same_word(e.text@, name)
        &&& v.corpus[id].start_line <= e.line
        &&& e.line <= v.corpus[id].end_line
    })
}

/// Whether a type or a module of that name lies in the chunk.
pub open spec fn is_namesake(v: IndexView, name: Seq<char>, id: Seq<char>) -> bool {
    exists|i: int| #[trigger] is_named(v, name, id, i)
}

proof fn lemma_namesake(v: IndexView, name: Seq<char>, id: Seq<char>)
    ensures
        is_exact_hit(v, name, id) == is_namesake(v, name, id),
{
    if is_exact_hit(v, name, id) {
        let (file, i) = choose|file: Seq<char>, i: int| #[trigger]
            names_chunk(v, name, id, file, i);
        case_of_ascii_letters_does_not_count(v.entities[file][i].text@, name);
        assert(is_named(v, name, id, i));
    }
    if is_namesake(v, name, id) {
        let i = choose|i: int| #[trigger] is_named(v, name, id, i);
        let file = v.corpus[id].file;
        case_of_ascii_letters_does_not_count(v.entities[file][i].text@, name);
        assert(has_name(v.entities[file][i], name));
        assert(names_chunk(v, name, id, file, i));
    }
}

/// The positions of the first `n` hits of other chunks, in ascending order.
pub open spec fn others(hits: Seq<(String, u32)>, id: Seq<char>, n: nat) -> Seq<int> {
    Seq::new(n, |i: int| i).filter(|i: int| hits[i].0@ != id)
}

proof fn lemma_others(hits: Seq<(String, u32)>, id: Seq<char>, n: nat)
    requires
        n <= hits.len(),
    ensures
        drop_id(hit_views(hits).take(n as int), id).len() == others(hits, id, n).len(),
        forall|p: int|
            0 <= p < others(hits, id, n).len() ==> 0 <= (#[trigger] others(hits, id, n)[p]) < n
                && drop_id(hit_views(hits).take(n as int), id)[p].0 == hits[others(hits, id, n)[p]].0@
                && drop_id(hit_views(hits).take(n as int), id)[p].1 == hits[others(
                hits,
                id,
                n,
            )[p]].1,
    decreases n,
{
    reveal(Seq::filter);
    let all = hit_views(hits);
    if n == 0 {
        assert(all.take(0) =~= Seq::empty());
    } else {
        let m = (n - 1) as nat;
        lemma_others(hits, id, m);
        assert(all.take(n as int).drop_last() =~= all.take(m as int));
        assert(all.take(n as int).last() == (hits[m as int].0@, hits[m as int].1));
        assert(Seq::new(n, |i: int| i).drop_last() =~= Seq::new(m, |i: int| i));
        assert(Seq::new(n, |i: int| i).last() == m);
        let before = drop_id(all.take(m as int), id);
        let after = drop_id(all.take(n as int), id);
        let old = others(hits, id, m);
        let pos = others(hits, id, n);
        assert forall|p: int| 0 <= p < pos.len() implies 0 <= (#[trigger] pos[p]) < n && after[p].0
            == hits[pos[p]].0@ && after[p].1 == hits[pos[p]].1 by {
            if p < old.len() {
                assert(pos[p] == old[p]);
                assert(after[p] == before[p]);
            }
        }
    }
}

/// Whether the first hit is the chunk with the score, and the hits of all other
/// chunks follow it in the order in which they were.
pub open spec fn is_put_first(
    before: Seq<(String, u32)>,
    after: Seq<(String, u32)>,
    score: u32,
) -> bool {
    &&& after.len() > 0
    &&& after[0].1 == score
    &&& after.len() == 1 + others(before, after[0].0@, before.len()).len()
    &&& forall|p: int|
        1 <= p < after.len() ==> same_hit(
            #[trigger] after[p],
            before[others(before, after[0].0@, before.len())[p - 1]],
        )
}

/// Whether the two hits are the same.
pub open spec fn same_hit(a: (String, u32), b: (String, u32)) -> bool {
    a.0@ == b.0@ && a.1 == b.1
}

/// A query of one word that looks for a definition, or for nothing in particular,
/// has a chunk in which a type or module of that name lies as its first lexical hit,
/// where there is one, ahead of the others in their order. In every other case the
/// hits stay as they are.
pub proof fn chunk_of_the_name_goes_first(
    v: IndexView,
    intent: QueryIntent,
    query: Seq<char>,
    score: u32,
    before: Seq<(String, u32)>,
    after: Seq<(String, u32)>,
)
    requires
        is_injection(v, intent, query, score, hit_views(before), hit_views(after)),
    ensures
        ({
            let name = trim_spec(query);
            let asked = (intent == QueryIntent::Definition || intent == QueryIntent::Unknown)
                && name.len() > 0 && !name.contains(' ');
            &&& asked && (exists|id: Seq<char>| #[trigger] is_namesake(v, name, id))
                ==> is_put_first(before, after, score) && is_namesake(v, name, after[0].0@)
            &&& !asked || !(exists|id: Seq<char>| #[trigger] is_namesake(v, name, id)) ==> after.len()
                == before.len() && forall|i: int|
                0 <= i < before.len() ==> same_hit(#[trigger] after[i], before[i])
        }),
{
    let name = trim_spec(query);
    let old = hit_views(before);
    let new = hit_views(after);
    assert forall|id: Seq<char>| #[trigger] is_exact_hit(v, name, id) == is_namesake(
        v,
        name,
        id,
    ) by {
        lemma_namesake(v, name, id);
    }
    assert forall|id: Seq<char>| #[trigger] is_namesake(v, name, id) implies is_exact_hit(
        v,
        name,
        id,
    ) by {
        lemma_namesake(v, name, id);
    }
    let asked = (intent == QueryIntent::Definition || intent == QueryIntent::Unknown)
        && is_one_word(query);
    if asked && exists|id: Seq<char>| #[trigger] is_exact_hit(v, name, id) {
        assert(exists|id: Seq<char>| #[trigger] injects(v, query, score, old, new, id));
        let id = choose|id: Seq<char>| #[trigger] injects(v, query, score, old, new, id);
        assert(new == seq![(id, score)] + drop_id(old, id));
        assert(after.len() == new.len());
        lemma_others(before, id, before.len());
        assert(old.take(before.len() as int) =~= old);
        assert(new[0] == (after[0].0@, after[0].1));
        assert forall|p: int| 1 <= p < after.len() implies same_hit(
            #[trigger] after[p],
            before[others(before, id, before.len())[p - 1]],
        ) by {
            assert(new[p] == (after[p].0@, after[p].1));
            assert(new[p] == drop_id(old, id)[p - 1]);
            let q = others(before, id, before.len())[p - 1];
            assert(0 <= q < before.len());
        }
        assert(is_exact_hit(v, name, id));
    } else {
        assert(after.len() == new.len() && before.len() == old.len());
        assert forall|i: int| 0 <= i < before.len() implies same_hit(
            #[trigger] after[i],
            before[i],
        ) by {
            assert(new[i] == (after[i].0@, after[i].1));
            assert(old[i] == (before[i].0@, before[i].1));
        }
    }
}

// ---------------------------------------------------------------------------
// Embeddings
// ---------------------------------------------------------------------------

/// The positions of the first `n` hits whose embedding is at hand, in ascending
/// order.
pub open spec fn at_hand(
    embeddings: Seq<(Seq<char>, Seq<u32>)>,
    hits: Seq<(String, u32)>,
    n: nat,
) -> Seq<int> {
    Seq::new(n, |i: int| i).filter(|i: int| value_of(embeddings, hits[i].0@) is Some)
}

proof fn lemma_snapshot(
    embeddings: Seq<(Seq<char>, Seq<u32>)>,
    hits: Seq<(String, u32)>,
    n: nat,
)
    requires
        n <= hits.len(),
    ensures
        snapshot_spec(embeddings, hit_views(hits).take(n as int)).len() == at_hand(
            embeddings,
            hits,
            n,
        ).len(),
        forall|p: int|
            0 <= p < at_hand(embeddings, hits, n).len() ==> 0 <= (#[trigger] at_hand(
                embeddings,
                hits,
                n,
            )[p]) < n && snapshot_spec(embeddings, hit_views(hits).take(n as int))[p].0
                == hits[at_hand(embeddings, hits, n)[p]].0@ && value_of(
                embeddings,
                hits[at_hand(embeddings, hits, n)[p]].0@,
            ) == Some(snapshot_spec(embeddings, hit_views(hits).take(n as int))[p].1),
    decreases n,
{
    reveal(Seq::filter);
    let all = hit_views(hits);
    if n == 0 {
        assert(all.take(0) =~= Seq::empty());
    } else {
        let m = (n - 1) as nat;
        lemma_snapshot(embeddings, hits, m);
        assert(all.take(n as int).drop_last() =~= all.take(m as int));
        assert(all.take(n as int).last() == (hits[m as int].0@, hits[m as int].1));
        assert(Seq::new(n, |i: int| i).drop_last() =~= Seq::new(m, |i: int| i));
        assert(Seq::new(n, |i: int| i).last() == m);
        let before = snapshot_spec(embeddings, all.take(m as int));
        let after = snapshot_spec(embeddings, all.take(n as int));
        let old = at_hand(embeddings, hits, m);
        let pos = at_hand(embeddings, hits, n);
        assert forall|p: int| 0 <= p < pos.len() implies 0 <= (#[trigger] pos[p]) < n && after[p].0
            == hits[pos[p]].0@ && value_of(embeddings, hits[pos[p]].0@) == Some(after[p].1) by {
            if p < old.len() {
                assert(pos[p] == old[p]);
                assert(after[p] == before[p]);
            }
        }
    }
}

/// For the fused list there is, in order, the id and the embedding of every hit
/// whose embedding is at hand, and nothing else.
pub proof fn every_embedding_at_hand_is_taken(
    embeddings: Seq<(Seq<char>, Seq<u32>)>,
    hits: Seq<(String, u32)>,
)
    ensures
        snapshot_spec(embeddings, hit_views(hits)).len() == at_hand(
            embeddings,
            hits,
            hits.len(),
        ).len(),
        forall|p: int|
            0 <= p < at_hand(embeddings, hits, hits.len()).len() ==> 0 <= (#[trigger] at_hand(
                embeddings,
                hits,
                hits.len(),
            )[p]) < hits.len() && snapshot_spec(embeddings, hit_views(hits))[p].0 == hits[at_hand(
                embeddings,
                hits,
                hits.len(),
            )[p]].0@ && value_of(embeddings, hits[at_hand(embeddings, hits, hits.len())[p]].0@)
                == Some(snapshot_spec(embeddings, hit_views(hits))[p].1),
{
    lemma_snapshot(embeddings, hits, hits.len());
    assert(hit_views(hits).take(hits.len() as int) =~= hit_views(hits));
}

} // verus!
