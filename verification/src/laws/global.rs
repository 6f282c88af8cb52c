//! Searching all indexes at once.
use crate::engine::chunk::{result_views, CodeChunk, CodeChunkView};
use crate::engine::listing::hit_views;
use crate::engine::search::first;
use crate::laws::search::lemma_all_kept;
use crate::service::global_search::{
    lane_of, lookup_of, lookup_with, namespaced, pick, rescored, tagged,
};
use vstd::prelude::*;

verus! {

// ---------------------------------------------------------------------------
// From the fused list to the results
// ---------------------------------------------------------------------------

/// Whether the `j`-th hit is the first of a result that is known.
pub open spec fn is_first_of_known(
    lookup: Map<Seq<char>, CodeChunkView>,
    fused: Seq<(String, u32)>,
    j: int,
) -> bool {
    &&& 0 <= j < fused.len()
    &&& lookup.contains_key(fused[j].0@)
    &&& forall|m: int| 0 <= m < j ==> (#[trigger] fused[m]).0@ != fused[j].0@
}

/// The positions of the first `n` hits that are the first of a known result, in
/// ascending order.
pub open spec fn positions(
    lookup: Map<Seq<char>, CodeChunkView>,
    fused: Seq<(String, u32)>,
    n: nat,
) -> Seq<int> {
    Seq::new(n, |j: int| j).filter(|j: int| is_first_of_known(lookup, fused, j))
}

proof fn lemma_pick(lookup: Map<Seq<char>, CodeChunkView>, fused: Seq<(String, u32)>, n: nat)
    requires
        n <= fused.len(),
    ensures
        ({
            let (out, left) = pick(lookup, hit_views(fused).take(n as int));
            let pos = positions(lookup, fused, n);
            &&& out.len() == pos.len()
            &&& forall|i: int|
                0 <= i < out.len() ==> 0 <= (#[trigger] pos[i]) < n && lookup.contains_key(
                    fused[pos[i]].0@,
                ) && out[i] == rescored(lookup[fused[pos[i]].0@], fused[pos[i]].1)
            &&& forall|k: Seq<char>| #[trigger]
                left.contains_key(k) == (lookup.contains_key(k) && forall|j: int|
                    0 <= j < n ==> (#[trigger] fused[j]).0@ != k)
            &&& forall|k: Seq<char>| #[trigger] left.contains_key(k) ==> left[k] == lookup[k]
        }),
    decreases n,
{
    reveal(Seq::filter);
    let all = hit_views(fused);
    if n == 0 {
        assert(all.take(0) =~= Seq::empty());
    } else {
        let m = (n - 1) as nat;
        lemma_pick(lookup, fused, m);
        assert(all.take(n as int).drop_last() =~= all.take(m as int));
        assert(all.take(n as int).last() == (fused[m as int].0@, fused[m as int].1));
        assert(Seq::new(n, |j: int| j).drop_last() =~= Seq::new(m, |j: int| j));
        assert(Seq::new(n, |j: int| j).last() == m);
        let (before, rest) = pick(lookup, all.take(m as int));
        let (out, left) = pick(lookup, all.take(n as int));
        let id = fused[m as int].0@;
        let old = positions(lookup, fused, m);
        let pos = positions(lookup, fused, n);
        assert(rest.contains_key(id) == is_first_of_known(lookup, fused, m as int));
        assert forall|i: int| 0 <= i < out.len() implies 0 <= (#[trigger] pos[i]) < n
            && lookup.contains_key(fused[pos[i]].0@) && out[i] == rescored(
            lookup[fused[pos[i]].0@],
            fused[pos[i]].1,
        ) by {
            if i < before.len() {
                assert(pos[i] == old[i]);
                assert(out[i] == before[i]);
            }
        }
        assert forall|k: Seq<char>| #[trigger] left.contains_key(k) == (lookup.contains_key(k)
            && forall|j: int| 0 <= j < n ==> (#[trigger] fused[j]).0@ != k) by {
            assert(rest.contains_key(k) == (lookup.contains_key(k) && forall|j: int|
                0 <= j < m ==> (#[trigger] fused[j]).0@ != k));
            if left.contains_key(k) {
                assert(rest.contains_key(k));
            }
        }
        assert forall|k: Seq<char>| #[trigger] left.contains_key(k) implies left[k] == lookup[k] by {
            assert(rest.contains_key(k));
        }
    }
}

/// The number of hits that count: at most `top_k`.
pub open spec fn leading(fused: Seq<(String, u32)>, top_k: usize) -> nat {
    if fused.len() < top_k {
        fused.len()
    } else {
        top_k as nat
    }
}

/// The results of a global search come in the order of the fused hits: for each of
/// the leading hits that names a known result for the first time there is that
/// result, with the score of the hit, and there is no other result.
pub proof fn global_results_follow_the_fused_hits(
    lookup: Map<Seq<char>, CodeChunkView>,
    fused: Seq<(String, u32)>,
    top_k: usize,
    out: Seq<CodeChunk>,
)
    requires
        result_views(out) == pick(lookup, first(hit_views(fused), top_k as int)).0,
    ensures
        out.len() == positions(lookup, fused, leading(fused, top_k)).len(),
        forall|i: int|
            0 <= i < out.len() ==> ({
                let hit = fused[positions(lookup, fused, leading(fused, top_k))[i]];
                &&& lookup.contains_key(hit.0@)
                &&& (#[trigger] out[i]).score == hit.1
                &&& out[i].id@ == lookup[hit.0@].id
                &&& out[i]@ == (CodeChunkView { score: hit.1, ..lookup[hit.0@] })
            }),
{
    let n = leading(fused, top_k);
    assert(first(hit_views(fused), top_k as int) =~= hit_views(fused).take(n as int));
    lemma_pick(lookup, fused, n);
    let pos = positions(lookup, fused, n);
    assert forall|i: int| 0 <= i < out.len() implies ({
        let hit = fused[pos[i]];
        &&& lookup.contains_key(hit.0@)
        &&& (#[trigger] out[i]).score == hit.1
        &&& out[i].id@ == lookup[hit.0@].id
        &&& out[i]@ == (CodeChunkView { score: hit.1, ..lookup[hit.0@] })
    }) by {
        assert(result_views(out)[i] == out[i]@);
        assert(0 <= pos[i] < n);
    }
}

/// Where the fused hits are known and differ, each of the leading ones has its
/// result at its own place.
pub proof fn every_known_hit_has_its_result(
    lookup: Map<Seq<char>, CodeChunkView>,
    fused: Seq<(String, u32)>,
    top_k: usize,
    out: Seq<CodeChunk>,
)
    requires
        result_views(out) == pick(lookup, first(hit_views(fused), top_k as int)).0,
        forall|i: int| 0 <= i < fused.len() ==> lookup.contains_key((#[trigger] fused[i]).0@),
        forall|i: int, j: int|
            0 <= i < j < fused.len() ==> (#[trigger] fused[i]).0@ != (#[trigger] fused[j]).0@,
    ensures
        out.len() == leading(fused, top_k),
        forall|i: int|
            0 <= i < out.len() ==> (#[trigger] out[i]).score == fused[i].1 && out[i].id@
                == lookup[fused[i].0@].id && out[i]@ == (CodeChunkView {
                score: fused[i].1,
                ..lookup[fused[i].0@]
            }),
{
    let n = leading(fused, top_k);
    let all = Seq::new(n, |j: int| j);
    let f = |j: int| is_first_of_known(lookup, fused, j);
    assert forall|i: int| 0 <= i < all.len() implies f(#[trigger] all[i]) by {
        assert(all[i] == i);
        assert(lookup.contains_key(fused[i].0@));
    }
    lemma_all_kept(all, f);
    global_results_follow_the_fused_hits(lookup, fused, top_k, out);
    assert forall|i: int| 0 <= i < out.len() implies (#[trigger] out[i]).score == fused[i].1
        && out[i].id@ == lookup[fused[i].0@].id && out[i]@ == (CodeChunkView {
        score: fused[i].1,
        ..lookup[fused[i].0@]
    }) by {
        assert(positions(lookup, fused, n)[i] == i);
    }
}

// ---------------------------------------------------------------------------
// From the answers to the fused list
// ---------------------------------------------------------------------------

/// The hits of an index are its results, in order and with their scores, each under
/// the name of the index and its own id with two colons between them.
pub proof fn lanes_list_the_results(index: Seq<char>, results: Seq<CodeChunkView>, i: int)
    requires
        0 <= i < results.len(),
    ensures
        lane_of(index, results).len() == results.len(),
        lane_of(index, results)[i].0 == index + seq![':', ':'] + results[i].id,
        lane_of(index, results)[i].1 == results[i].score,
{
    reveal_strlit("::");
    assert("::"@ =~= seq![':', ':']);
}

/// Whether the key is that of the `i`-th result of the `a`-th index.
pub open spec fn is_key_of(
    all: Seq<(Seq<char>, Seq<CodeChunkView>)>,
    a: int,
    i: int,
    k: Seq<char>,
) -> bool {
    &&& 0 <= a < all.len()
    &&& 0 <= i < all[a].1.len()
    &&& k == all[a].0 + seq![':', ':'] + all[a].1[i].id
}

/// Whether the `b`-th index, or a later result of the same one, comes after the
/// `i`-th result of the `a`-th index.
pub open spec fn comes_after(a: int, i: int, b: int, j: int) -> bool {
    a < b || (a == b && i < j)
}

/// Whether the `i`-th result of the index has the global id.
spec fn is_own(index: Seq<char>, results: Seq<CodeChunkView>, k: Seq<char>, i: int) -> bool {
    0 <= i < results.len() && k == namespaced(index, results[i].id)
}

proof fn lemma_lookup_elsewhere(
    lookup: Map<Seq<char>, CodeChunkView>,
    index: Seq<char>,
    results: Seq<CodeChunkView>,
    k: Seq<char>,
)
    requires
        forall|i: int| !#[trigger] is_own(index, results, k, i),
    ensures
        lookup_with(lookup, index, results).contains_key(k) == lookup.contains_key(k),
        lookup_with(lookup, index, results)[k] == lookup[k],
    decreases results.len(),
{
    if results.len() > 0 {
        let head = results.drop_last();
        assert forall|i: int| !#[trigger] is_own(index, head, k, i) by {
            assert(!is_own(index, results, k, i));
        }
        lemma_lookup_elsewhere(lookup, index, head, k);
        assert(!is_own(index, results, k, results.len() - 1));
    }
}

proof fn lemma_lookup_own(
    lookup: Map<Seq<char>, CodeChunkView>,
    index: Seq<char>,
    results: Seq<CodeChunkView>,
    k: Seq<char>,
    i: int,
)
    requires
        is_own(index, results, k, i),
    ensures
        lookup_with(lookup, index, results).contains_key(k),
        (forall|j: int| i < j ==> !#[trigger] is_own(index, results, k, j)) ==> lookup_with(
            lookup,
            index,
            results,
        )[k] == tagged(results[i], index),
    decreases results.len(),
{
    let head = results.drop_last();
    let n = results.len() - 1;
    if i < n {
        assert(is_own(index, head, k, i));
        lemma_lookup_own(lookup, index, head, k, i);
        if forall|j: int| i < j ==> !#[trigger] is_own(index, results, k, j) {
            assert forall|j: int| i < j implies !#[trigger] is_own(index, head, k, j) by {
                assert(!is_own(index, results, k, j));
            }
            assert(!is_own(index, results, k, n));
        }
    }
}

proof fn lemma_lookup(all: Seq<(Seq<char>, Seq<CodeChunkView>)>, k: Seq<char>)
    ensures
        lookup_of(all).contains_key(k) == (exists|a: int, i: int| #[trigger] is_key_of(all, a, i, k)),
    decreases all.len(),
{
    reveal_strlit("::");
    assert("::"@ =~= seq![':', ':']);
    if all.len() > 0 {
        let head = all.drop_last();
        let n = all.len() - 1;
        let (index, results) = all[n];
        lemma_lookup(head, k);
        if exists|i: int| #[trigger] is_own(index, results, k, i) {
            let i = choose|i: int| #[trigger] is_own(index, results, k, i);
            lemma_lookup_own(lookup_of(head), index, results, k, i);
            assert(is_key_of(all, n, i, k));
        } else {
            lemma_lookup_elsewhere(lookup_of(head), index, results, k);
            if exists|a: int, i: int| #[trigger] is_key_of(all, a, i, k) {
                let (a, i) = choose|a: int, i: int| #[trigger] is_key_of(all, a, i, k);
                if a == n {
                    assert(is_own(index, results, k, i));
                }
                assert(is_key_of(head, a, i, k));
            }
            if exists|a: int, i: int| #[trigger] is_key_of(head, a, i, k) {
                let (a, i) = choose|a: int, i: int| #[trigger] is_key_of(head, a, i, k);
                assert(is_key_of(all, a, i, k));
            }
        }
    }
}

proof fn lemma_lookup_last(
    all: Seq<(Seq<char>, Seq<CodeChunkView>)>,
    k: Seq<char>,
    a: int,
    i: int,
)
    requires
        is_key_of(all, a, i, k),
        forall|b: int, j: int|
            comes_after(a, i, b, j) ==> !#[trigger] is_key_of(all, b, j, k),
    ensures
        lookup_of(all)[k] == tagged(all[a].1[i], all[a].0),
    decreases all.len(),
{
    reveal_strlit("::");
    assert("::"@ =~= seq![':', ':']);
    let head = all.drop_last();
    let n = all.len() - 1;
    let (index, results) = all[n];
    if a == n {
        assert(is_own(index, results, k, i));
        assert forall|j: int| i < j implies !#[trigger] is_own(index, results, k, j) by {
            assert(comes_after(a, i, n, j));
            assert(!is_key_of(all, n, j, k));
        }
        lemma_lookup_own(lookup_of(head), index, results, k, i);
    } else {
        assert forall|j: int| !#[trigger] is_own(index, results, k, j) by {
            assert(comes_after(a, i, n, j));
            assert(!is_key_of(all, n, j, k));
        }
        lemma_lookup_elsewhere(lookup_of(head), index, results, k);
        assert(is_key_of(head, a, i, k));
        assert forall|b: int, j: int| comes_after(a, i, b, j) implies !#[trigger] is_key_of(
            head,
            b,
            j,
            k,
        ) by {
            if is_key_of(head, b, j, k) {
                assert(is_key_of(all, b, j, k));
            }
        }
        lemma_lookup_last(head, k, a, i);
        assert(head[a] == all[a]);
    }
}

/// Every result of every index can be found under its global id, marked with its
/// index and otherwise as it was; of two that share a global id, the later one.
pub proof fn every_result_is_filed(
    all: Seq<(Seq<char>, Seq<CodeChunkView>)>,
    a: int,
    i: int,
    k: Seq<char>,
)
    requires
        is_key_of(all, a, i, k),
    ensures
        lookup_of(all).contains_key(k),
        (forall|b: int, j: int|
            comes_after(a, i, b, j) ==> !#[trigger] is_key_of(all, b, j, k)) ==> lookup_of(all)[k]
            == (CodeChunkView { index_id: Some(all[a].0), ..all[a].1[i] }),
{
    lemma_lookup(all, k);
    if forall|b: int, j: int| comes_after(a, i, b, j) ==> !#[trigger] is_key_of(all, b, j, k) {
        lemma_lookup_last(all, k, a, i);
    }
}

/// Nothing else can be found: what is filed under a global id is a result of the
/// index that the id names.
pub proof fn only_results_are_filed(all: Seq<(Seq<char>, Seq<CodeChunkView>)>, k: Seq<char>)
    requires
        lookup_of(all).contains_key(k),
    ensures
        exists|a: int, i: int| #[trigger]
            is_key_of(all, a, i, k) && lookup_of(all)[k] == (CodeChunkView {
                index_id: Some(all[a].0),
                ..all[a].1[i]
            }),
{
    lemma_lookup(all, k);
    let (a, i) = choose|a: int, i: int| #[trigger] is_key_of(all, a, i, k);
    let (b, j) = lemma_last_key(all, k, a, i);
    lemma_lookup_last(all, k, b, j);
    assert(is_key_of(all, b, j, k));
}

proof fn lemma_last_key(
    all: Seq<(Seq<char>, Seq<CodeChunkView>)>,
    k: Seq<char>,
    a: int,
    i: int,
) -> (r: (int, int))
    requires
        is_key_of(all, a, i, k),
    ensures
        is_key_of(all, r.0, r.1, k),
        forall|b: int, j: int|
            comes_after(r.0, r.1, b, j) ==> !#[trigger] is_key_of(all, b, j, k),
    decreases all.len() - a, all[a].1.len() - i,
{
    if exists|b: int, j: int| comes_after(a, i, b, j) && #[trigger] is_key_of(all, b, j, k) {
        let (b, j) = choose|b: int, j: int|
            comes_after(a, i, b, j) && #[trigger] is_key_of(all, b, j, k);
        lemma_last_key(all, k, b, j)
    } else {
        (a, i)
    }
}

} // verus!
