//! Expanding search results along the symbol graph.
//!
//! Scores are single-precision numbers, kept as their bit patterns; they are
//! ordered by sign and magnitude.
use crate::engine::table::Table;
use crate::paths::{push_text_key, text_key};
use crate::sorting::{is_order, lex_le, lists, precedes, sort_order};
use crate::text::{chars_of, same_text};
use vstd::prelude::*;

verus! {

/// Graph hops from a result to what is added for it.
pub const KG_EXPAND_HOPS: usize = 1;

/// Where the score with these bits stands among all scores: the larger of two
/// scores has the larger rank, and both zeros have rank zero.
pub open spec fn score_rank(bits: u32) -> int {
    if bits < 0x8000_0000 {
        bits as int
    } else {
        0x8000_0000 - bits
    }
}

/// Whether the bits are those of a number, not of a NaN.
pub open spec fn is_number(bits: u32) -> bool {
    -0x7f80_0000 <= score_rank(bits) <= 0x7f80_0000
}

/// Whether score `a` is larger than score `b`.
pub fn score_above(a: u32, b: u32) -> (r: bool)
    ensures
        r == (score_rank(a) > score_rank(b)),
{
    if a < 0x8000_0000 {
        if b < 0x8000_0000 {
            a > b
        } else {
            a > 0 || b > 0x8000_0000
        }
    } else {
        b >= 0x8000_0000 && a < b
    }
}

/// The numbers by which results are ordered: larger scores first, then by id.
pub open spec fn result_key(id: Seq<char>, score: u32) -> Seq<u64> {
    seq![(0x7fff_ffff - score_rank(score)) as u64] + text_key(id)
}

fn result_sort_key(id: &str, score: u32) -> (key: Vec<u64>)
    ensures
        key@ == result_key(id@, score),
{
    let v = chars_of(id);
    let head: u64 = if score < 0x8000_0000 {
        0x7fff_ffff - score as u64
    } else {
        score as u64 - 1
    };
    let mut key: Vec<u64> = Vec::new();
    key.push(head);
    push_text_key(&mut key, &v, 0, v.len());
    assert(v@.subrange(0, v@.len() as int) =~= v@);
    assert(key@ =~= seq![head] + text_key(v@));
    key
}

/// Whether `id` is the id of one of the entries.
pub open spec fn has_id(s: Seq<(String, u32)>, id: Seq<char>) -> bool {
    exists|i: int| 0 <= i < s.len() && (#[trigger] s[i]).0@ == id
}

/// Whether one of the entries has the id.
pub fn contains_id(s: &Vec<(String, u32)>, id: &str) -> (r: bool)
    ensures
        r == has_id(s@, id@),
{
    for i in 0..s.len()
        invariant
            forall|j: int| 0 <= j < i ==> (#[trigger] s@[j]).0@ != id@,
    {
        if same_text(s[i].0.as_str(), id) {
            return true;
        }
    }
    false
}

/// Whether the `i`-th of the first `n` entries is the first with the best score
/// of its id.
pub open spec fn is_best_at(s: Seq<(String, u32)>, n: int, i: int) -> bool {
    &&& 0 <= i < n
    &&& forall|j: int|
        0 <= j < n && (#[trigger] s[j]).0@ == s[i].0@ ==> score_rank(s[j].1) <= score_rank(s[i].1)
    &&& forall|j: int|
        0 <= j < i && (#[trigger] s[j]).0@ == s[i].0@ ==> score_rank(s[j].1) < score_rank(s[i].1)
}

/// Whether `score` is the best score of `id` among the first `n` entries.
pub open spec fn is_best_score(s: Seq<(String, u32)>, n: int, id: Seq<char>, score: u32) -> bool {
    exists|i: int| #[trigger] is_best_at(s, n, i) && s[i].0@ == id && s[i].1 == score
}

/// Whether `out` is what the graph adds to the results `seeds`: of each
/// neighbour that is no result itself its best score, larger scores first and
/// equal ones by id.
pub open spec fn is_expansion(
    seeds: Seq<(String, u32)>,
    derived: Seq<(String, u32)>,
    out: Seq<(String, u32)>,
) -> bool {
    &&& forall|i: int|
        0 <= i < out.len() ==> !has_id(seeds, (#[trigger] out[i]).0@) && is_best_score(
            derived,
            derived.len() as int,
            out[i].0@,
            out[i].1,
        )
    &&& forall|j: int|
        0 <= j < derived.len() && !has_id(seeds, (#[trigger] derived[j]).0@) ==> has_id(
            out,
            derived[j].0@,
        )
    &&& forall|i: int, j: int|
        0 <= i < j < out.len() ==> (#[trigger] out[i]).0@ != (#[trigger] out[j]).0@ && lex_le(
            result_key(out[i].0@, out[i].1),
            result_key(out[j].0@, out[j].1),
        )
}

proof fn lemma_best_step(s: Seq<(String, u32)>, n: int, id: Seq<char>, score: u32)
    requires
        0 <= n < s.len(),
        is_best_score(s, n, id, score),
        s[n].0@ == id ==> score_rank(s[n].1) <= score_rank(score),
    ensures
        is_best_score(s, n + 1, id, score),
{
    let i = choose|i: int| #[trigger] is_best_at(s, n, i) && s[i].0@ == id && s[i].1 == score;
    assert(is_best_at(s, n + 1, i));
}

/// What the graph adds to the results `seeds`, given each neighbour of each
/// result with the score derived for it, in the order in which they were
/// visited. Nothing where the graph or the list of results is empty.
pub fn kg_expand(
    node_count: usize,
    seeds: &Vec<(String, u32)>,
    derived: &Vec<(String, u32)>,
) -> (out: Vec<(String, u32)>)
    requires
        forall|i: int| 0 <= i < derived.len() ==> is_number((#[trigger] derived@[i]).1),
    ensures
        if node_count == 0 || seeds@.len() == 0 {
            out@.len() == 0
        } else {
            is_expansion(seeds@, derived@, out@)
        },
{
    if node_count == 0 || seeds.len() == 0 {
        return Vec::new();
    }
    let mut best: Table<u32> = Table::new();
    for n in 0..derived.len()
        invariant
            best.wf(),
            forall|k: Seq<char>| #[trigger]
                best@.contains_key(k) ==> !has_id(seeds@, k) && is_best_score(
                    derived@,
                    n as int,
                    k,
                    best@[k],
                ),
            forall|j: int|
                0 <= j < n && !has_id(seeds@, (#[trigger] derived@[j]).0@) ==> best@.contains_key(
                    derived@[j].0@,
                ),
    {
        let ghost before = best@;
        let ghost id = derived@[n as int].0@;
        if !contains_id(seeds, derived[n].0.as_str()) {
            let score: u32 = derived[n].1;
            let replace = match best.get(derived[n].0.as_str()) {
                Some(s) => score_above(score, *s),
                None => true,
            };
            if replace {
                best.insert(derived[n].0.clone(), score);
                proof {
                    // The new entry is the first with its score.
                    assert forall|j: int|
                        0 <= j < n && (#[trigger] derived@[j]).0@ == id implies score_rank(
                        derived@[j].1,
                    ) < score_rank(score) by {
                        assert(before.contains_key(id));
                        let i = choose|i: int| #[trigger]
                            is_best_at(derived@, n as int, i) && derived@[i].0@ == id && derived@[i].1
                                == before[id];
                        assert(derived@[j].0@ == derived@[i].0@);
                    }
                    assert(is_best_at(derived@, n + 1, n as int));
                }
            }
        }
        proof {
            assert forall|k: Seq<char>| #[trigger] best@.contains_key(k) implies !has_id(seeds@, k)
                && is_best_score(derived@, n + 1, k, best@[k]) by {
                if !(k == id && best@ != before) {
                    assert(before.contains_key(k) && best@[k] == before[k]);
                    if k == id {
                        assert(score_rank(derived@[n as int].1) <= score_rank(before[k]));
                    }
                    lemma_best_step(derived@, n as int, k, before[k]);
                } else if before.contains_key(k) && before[k] == best@[k] {
                    assert(before.insert(k, before[k]) =~= before);
                }
            }
        }
    }
    let mut keys: Vec<Vec<u64>> = Vec::new();
    let count: usize = best.len();
    proof {
        best.keys_are_the_domain();
    }
    for i in 0..count
        invariant
            best.wf(),
            count == best.keys().len(),
            keys.len() == i,
            forall|j: int|
                0 <= j < i ==> (#[trigger] keys@[j])@ == result_key(
                    best.keys()[j],
                    best@[best.keys()[j]],
                ),
    {
        keys.push(result_sort_key(best.key_at(i).as_str(), *best.value_at(i)));
    }
    let order = sort_order(&keys);
    let mut out: Vec<(String, u32)> = Vec::new();
    for i in 0..order.len()
        invariant
            best.wf(),
            count == best.keys().len(),
            keys.len() == count,
            is_order(keys@, order@, 0, count as int),
            out.len() == i,
            forall|j: int|
                0 <= j < i ==> (#[trigger] out@[j]).0@ == best.keys()[order@[j] as int] && out@[j].1
                    == best@[best.keys()[order@[j] as int]],
    {
        let x: usize = order[i];
        out.push((best.key_at(x).clone(), *best.value_at(x)));
    }
    proof {
        assert forall|i: int| 0 <= i < out.len() implies !has_id(seeds@, (#[trigger] out@[i]).0@)
            && is_best_score(derived@, derived.len() as int, out@[i].0@, out@[i].1) by {
            assert(best@.contains_key(best.keys()[order@[i] as int]));
        }
        assert forall|j: int|
            0 <= j < derived.len() && !has_id(seeds@, (#[trigger] derived@[j]).0@) implies has_id(
            out@,
            derived@[j].0@,
        ) by {
            let k = derived@[j].0@;
            assert(best@.contains_key(k));
            let p = choose|p: int| 0 <= p < best.keys().len() && #[trigger] best.keys()[p] == k;
            assert(lists(order@, p));
            let a = choose|a: int| 0 <= a < order.len() && #[trigger] order@[a] == p;
            assert(out@[a].0@ == k);
        }
        assert forall|i: int, j: int| 0 <= i < j < out.len() implies (#[trigger] out@[i]).0@ != (
        #[trigger] out@[j]).0@ && lex_le(
            result_key(out@[i].0@, out@[i].1),
            result_key(out@[j].0@, out@[j].1),
        ) by {
            assert(precedes(keys@, order@[i] as int, order@[j] as int));
            if order@[i] == order@[j] {
                assert(lex_le(keys@[order@[j] as int]@, keys@[order@[i] as int]@));
            }
        }
    }
    out
}

/// Nothing that the graph adds is a result already, and nothing is added twice.
pub proof fn expansion_adds_new_chunks_once(
    seeds: Seq<(String, u32)>,
    derived: Seq<(String, u32)>,
    out: Seq<(String, u32)>,
    i: int,
    j: int,
)
    requires
        is_expansion(seeds, derived, out),
        0 <= i < j < out.len(),
    ensures
        !has_id(seeds, out[i].0@),
        !has_id(seeds, out[j].0@),
        out[i].0@ != out[j].0@,
        score_rank(out[i].1) >= score_rank(out[j].1),
{
    let a = result_key(out[i].0@, out[i].1);
    let b = result_key(out[j].0@, out[j].1);
    assert(lex_le(a, b));
    assert(a[0] <= b[0]);
}

} // verus!
