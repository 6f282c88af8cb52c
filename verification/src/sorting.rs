//! A stable sort by keys.
//!
//! A key is a row of numbers; keys are compared lexicographically, and equal
//! keys keep the order in which they were given.
use vstd::prelude::*;

verus! {

/// Whether `a` comes before `b`, or is `b`, in lexicographic order.
pub open spec fn lex_le(a: Seq<u64>, b: Seq<u64>) -> bool
    decreases a.len(),
{
    if a.len() == 0 {
        true
    } else if b.len() == 0 {
        false
    } else if a[0] != b[0] {
        a[0] < b[0]
    } else {
        lex_le(a.skip(1), b.skip(1))
    }
}

/// Of two keys, one comes before the other or they are equal.
pub proof fn lex_le_total(a: Seq<u64>, b: Seq<u64>)
    ensures
        lex_le(a, b) || lex_le(b, a),
    decreases a.len(),
{
    if a.len() > 0 && b.len() > 0 && a[0] == b[0] {
        lex_le_total(a.skip(1), b.skip(1));
    }
}

/// The order of keys is transitive.
pub proof fn lex_le_transitive(a: Seq<u64>, b: Seq<u64>, c: Seq<u64>)
    requires
        lex_le(a, b),
        lex_le(b, c),
    ensures
        lex_le(a, c),
    decreases a.len(),
{
    if a.len() > 0 && b.len() > 0 && c.len() > 0 && a[0] == b[0] && b[0] == c[0] {
        lex_le_transitive(a.skip(1), b.skip(1), c.skip(1));
    }
}

/// Keys that come before each other are equal.
pub proof fn lex_le_antisymmetric(a: Seq<u64>, b: Seq<u64>)
    requires
        lex_le(a, b),
        lex_le(b, a),
    ensures
        a == b,
    decreases a.len(),
{
    if a.len() > 0 && b.len() > 0 {
        lex_le_antisymmetric(a.skip(1), b.skip(1));
        assert(a =~= seq![a[0]] + a.skip(1));
        assert(b =~= seq![b[0]] + b.skip(1));
    } else {
        assert(a =~= b);
    }
}

/// Whether key `a` comes before key `b`, or is equal to it.
pub fn key_le(a: &Vec<u64>, b: &Vec<u64>) -> (r: bool)
    ensures
        r == lex_le(a@, b@),
{
    let mut i: usize = 0;
    assert(a@.skip(0) =~= a@);
    assert(b@.skip(0) =~= b@);
    while i < a.len() && i < b.len() && a[i] == b[i]
        invariant
            i <= a.len(),
            i <= b.len(),
            lex_le(a@.skip(i as int), b@.skip(i as int)) == lex_le(a@, b@),
        decreases a.len() - i,
    {
        assert(a@.skip(i as int).skip(1) =~= a@.skip(i + 1));
        assert(b@.skip(i as int).skip(1) =~= b@.skip(i + 1));
        i = i + 1;
    }
    if i == a.len() {
        true
    } else if i == b.len() {
        false
    } else {
        assert(a@.skip(i as int)[0] == a@[i as int]);
        assert(b@.skip(i as int)[0] == b@[i as int]);
        a[i] < b[i]
    }
}

/// Whether slot `i` comes before slot `j`: by key, and by position where the
/// keys are equal.
pub open spec fn precedes(keys: Seq<Vec<u64>>, i: int, j: int) -> bool {
    lex_le(keys[i]@, keys[j]@) && (lex_le(keys[j]@, keys[i]@) ==> i < j)
}

proof fn lemma_precedes_transitive(keys: Seq<Vec<u64>>, i: int, j: int, k: int)
    requires
        precedes(keys, i, j),
        precedes(keys, j, k),
    ensures
        precedes(keys, i, k),
{
    lex_le_transitive(keys[i]@, keys[j]@, keys[k]@);
    if lex_le(keys[k]@, keys[i]@) {
        lex_le_transitive(keys[k]@, keys[i]@, keys[j]@);
        lex_le_transitive(keys[j]@, keys[k]@, keys[i]@);
    }
}

/// Whether the slot `v` is listed.
pub open spec fn lists(order: Seq<usize>, v: int) -> bool {
    exists|a: int| 0 <= a < order.len() && #[trigger] order[a] == v
}

/// Whether `order` lists each of the slots `lo..hi` once, in the order of their
/// keys.
pub open spec fn is_order(keys: Seq<Vec<u64>>, order: Seq<usize>, lo: int, hi: int) -> bool {
    &&& order.len() == hi - lo
    &&& forall|a: int| 0 <= a < order.len() ==> lo <= #[trigger] order[a] < hi
    &&& forall|v: int| lo <= v < hi ==> #[trigger] lists(order, v)
    &&& forall|a: int, b: int|
        0 <= a < b < order.len() ==> precedes(
            keys,
            (#[trigger] order[a]) as int,
            (#[trigger] order[b]) as int,
        )
}

/// Two lists of the same slots in the order of their keys are the same.
pub proof fn order_is_unique(keys: Seq<Vec<u64>>, a: Seq<usize>, b: Seq<usize>, lo: int, hi: int)
    requires
        is_order(keys, a, lo, hi),
        is_order(keys, b, lo, hi),
    ensures
        a == b,
{
    assert forall|i: int| 0 <= i < a.len() implies a[i] == b[i] by {
        lemma_orders_agree(keys, a, b, lo, hi, i);
    }
    assert(a =~= b);
}

proof fn lemma_orders_agree(
    keys: Seq<Vec<u64>>,
    a: Seq<usize>,
    b: Seq<usize>,
    lo: int,
    hi: int,
    i: int,
)
    requires
        is_order(keys, a, lo, hi),
        is_order(keys, b, lo, hi),
        0 <= i < a.len(),
    ensures
        a[i] == b[i],
    decreases i,
{
    assert forall|j: int| 0 <= j < i implies a[j] == b[j] by {
        lemma_orders_agree(keys, a, b, lo, hi, j);
    }
    if a[i] != b[i] {
        lemma_first_difference(keys, a, b, lo, hi, i);
        lemma_first_difference(keys, b, a, lo, hi, i);
    }
}

proof fn lemma_first_difference(
    keys: Seq<Vec<u64>>,
    a: Seq<usize>,
    b: Seq<usize>,
    lo: int,
    hi: int,
    i: int,
)
    requires
        is_order(keys, a, lo, hi),
        is_order(keys, b, lo, hi),
        0 <= i < a.len(),
        forall|j: int| 0 <= j < i ==> a[j] == b[j],
        a[i] != b[i],
    ensures
        precedes(keys, b[i] as int, a[i] as int),
        !precedes(keys, a[i] as int, b[i] as int),
{
    assert(lists(b, a[i] as int));
    let p = choose|p: int| 0 <= p < b.len() && #[trigger] b[p] == a[i];
    if p < i {
        assert(a[p] == b[p]);
        assert(precedes(keys, a[p] as int, a[i] as int));
    }
    assert(precedes(keys, b[i] as int, b[p] as int));
}

fn merge(keys: &Vec<Vec<u64>>, left: &Vec<usize>, right: &Vec<usize>, lo: usize, mid: usize, hi: usize) -> (out:
    Vec<usize>)
    requires
        lo <= mid <= hi <= keys.len(),
        is_order(keys@, left@, lo as int, mid as int),
        is_order(keys@, right@, mid as int, hi as int),
    ensures
        is_order(keys@, out@, lo as int, hi as int),
{
    let mut out: Vec<usize> = Vec::new();
    let mut i: usize = 0;
    let mut j: usize = 0;
    while i < left.len() || j < right.len()
        invariant
            lo <= mid <= hi <= keys.len(),
            is_order(keys@, left@, lo as int, mid as int),
            is_order(keys@, right@, mid as int, hi as int),
            i <= left.len(),
            j <= right.len(),
            out.len() == i + j,
            forall|a: int, b: int|
                0 <= a < b < out.len() ==> precedes(
                    keys@,
                    (#[trigger] out@[a]) as int,
                    (#[trigger] out@[b]) as int,
                ),
            forall|a: int, k: int|
                0 <= a < out.len() && i <= k < left.len() ==> precedes(
                    keys@,
                    (#[trigger] out@[a]) as int,
                    (#[trigger] left@[k]) as int,
                ),
            forall|a: int, k: int|
                0 <= a < out.len() && j <= k < right.len() ==> precedes(
                    keys@,
                    (#[trigger] out@[a]) as int,
                    (#[trigger] right@[k]) as int,
                ),
            forall|a: int| 0 <= a < out.len() ==> lo <= #[trigger] out@[a] < hi,
            forall|k: int| 0 <= k < i ==> lists(out@, (#[trigger] left@[k]) as int),
            forall|k: int| 0 <= k < j ==> lists(out@, (#[trigger] right@[k]) as int),
        decreases left.len() - i + right.len() - j,
    {
        let take_left = if i == left.len() {
            false
        } else if j == right.len() {
            true
        } else {
            key_le(&keys[left[i]], &keys[right[j]])
        };
        let ghost before = out@;
        if take_left {
            let x: usize = left[i];
            out.push(x);
            proof {
                assert forall|k: int| j <= k < right.len() implies precedes(
                    keys@,
                    x as int,
                    (#[trigger] right@[k]) as int,
                ) by {
                    assert(right@[j as int] >= mid);
                    assert(precedes(keys@, x as int, right@[j as int] as int));
                    if k > j {
                        lemma_precedes_transitive(
                            keys@,
                            x as int,
                            right@[j as int] as int,
                            right@[k] as int,
                        );
                    }
                }
            }
            assert(out@[before.len() as int] == left@[i as int]);
            i = i + 1;
        } else {
            let x: usize = right[j];
            out.push(x);
            proof {
                assert forall|k: int| i <= k < left.len() implies precedes(
                    keys@,
                    x as int,
                    (#[trigger] left@[k]) as int,
                ) by {
                    lex_le_total(keys@[left@[i as int] as int]@, keys@[x as int]@);
                    assert(precedes(keys@, x as int, left@[i as int] as int));
                    if k > i {
                        lemma_precedes_transitive(
                            keys@,
                            x as int,
                            left@[i as int] as int,
                            left@[k] as int,
                        );
                    }
                }
            }
            assert(out@[before.len() as int] == right@[j as int]);
            j = j + 1;
        }
        proof {
            assert forall|k: int| 0 <= k < i implies lists(out@, (#[trigger] left@[k]) as int) by {
                if !(take_left && k == i - 1) {
                    let a = choose|a: int|
                        0 <= a < before.len() && #[trigger] before[a] == left@[k];
                    assert(out@[a] == left@[k]);
                }
            }
            assert forall|k: int| 0 <= k < j implies lists(out@, (#[trigger] right@[k]) as int) by {
                if !(!take_left && k == j - 1) {
                    let a = choose|a: int|
                        0 <= a < before.len() && #[trigger] before[a] == right@[k];
                    assert(out@[a] == right@[k]);
                }
            }
        }
    }
    proof {
        assert forall|v: int| lo <= v < hi implies #[trigger] lists(out@, v) by {
            if v < mid {
                assert(lists(left@, v));
                let k = choose|k: int| 0 <= k < left.len() && #[trigger] left@[k] == v;
                assert(lists(out@, left@[k] as int));
            } else {
                assert(lists(right@, v));
                let k = choose|k: int| 0 <= k < right.len() && #[trigger] right@[k] == v;
                assert(lists(out@, right@[k] as int));
            }
        }
    }
    out
}

fn sort_range(keys: &Vec<Vec<u64>>, lo: usize, hi: usize) -> (order: Vec<usize>)
    requires
        lo <= hi <= keys.len(),
    ensures
        is_order(keys@, order@, lo as int, hi as int),
    decreases hi - lo,
{
    if hi - lo <= 1 {
        let mut order: Vec<usize> = Vec::new();
        if lo < hi {
            order.push(lo);
            assert(order@[0] == lo);
        }
        return order;
    }
    let mid: usize = lo + (hi - lo) / 2;
    let left = sort_range(keys, lo, mid);
    let right = sort_range(keys, mid, hi);
    merge(keys, &left, &right, lo, mid, hi)
}

/// The slots of `keys` in the order of their keys.
pub fn sort_order(keys: &Vec<Vec<u64>>) -> (order: Vec<usize>)
    ensures
        is_order(keys@, order@, 0, keys.len() as int),
{
    sort_range(keys, 0, keys.len())
}

/// The numbers of each key.
pub open spec fn key_views(keys: Seq<Vec<u64>>) -> Seq<Seq<u64>> {
    keys.map_values(|k: Vec<u64>| k@)
}

/// Whether `order` lists each slot of `keys` once, by key, and by position where
/// the keys are equal.
pub open spec fn sorts(keys: Seq<Seq<u64>>, order: Seq<usize>) -> bool {
    &&& order.len() == keys.len()
    &&& forall|a: int| 0 <= a < order.len() ==> #[trigger] order[a] < keys.len()
    &&& forall|v: int| 0 <= v < keys.len() ==> #[trigger] lists(order, v)
    &&& forall|a: int, b: int|
        0 <= a < b < order.len() ==> lex_le(
            keys[(#[trigger] order[a]) as int],
            keys[(#[trigger] order[b]) as int],
        ) && (lex_le(keys[order[b] as int], keys[order[a] as int]) ==> order[a] < order[b])
}

/// The slots of `keys` in their order.
pub open spec fn sorted(keys: Seq<Seq<u64>>) -> Seq<usize> {
    choose|order: Seq<usize>| sorts(keys, order)
}

/// Whatever the keys, their slots can be put in order.
pub proof fn keys_can_be_sorted(keys: Seq<Seq<u64>>)
    requires
        keys.len() <= usize::MAX,
    ensures
        sorts(keys, sorted(keys)),
{
    let order = lemma_insertion(keys);
    assert(sorts(keys, order));
}

/// The first position from `at` on whose key does not come before `key`.
spec fn place(keys: Seq<Seq<u64>>, order: Seq<usize>, key: Seq<u64>, at: int) -> int
    decreases order.len() - at,
{
    if 0 <= at < order.len() && lex_le(keys[order[at] as int], key) {
        place(keys, order, key, at + 1)
    } else {
        at
    }
}

proof fn lemma_place(keys: Seq<Seq<u64>>, order: Seq<usize>, key: Seq<u64>, at: int)
    requires
        0 <= at <= order.len(),
        forall|a: int| 0 <= a < at ==> lex_le(keys[(#[trigger] order[a]) as int], key),
    ensures
        at <= place(keys, order, key, at) <= order.len(),
        forall|a: int|
            0 <= a < place(keys, order, key, at) ==> lex_le(
                keys[(#[trigger] order[a]) as int],
                key,
            ),
        place(keys, order, key, at) < order.len() ==> !lex_le(
            keys[order[place(keys, order, key, at)] as int],
            key,
        ),
    decreases order.len() - at,
{
    if at < order.len() && lex_le(keys[order[at] as int], key) {
        lemma_place(keys, order, key, at + 1);
    }
}

proof fn lemma_insertion(keys: Seq<Seq<u64>>) -> (order: Seq<usize>)
    requires
        keys.len() <= usize::MAX,
    ensures
        sorts(keys, order),
    decreases keys.len(),
{
    if keys.len() == 0 {
        Seq::empty()
    } else {
        let rest = keys.drop_last();
        let n = rest.len() as int;
        let before = lemma_insertion(rest);
        let key = keys[n];
        lemma_place(keys, before, key, 0);
        let p = place(keys, before, key, 0);
        let order = before.insert(p, n as usize);
        assert forall|v: int| 0 <= v < keys.len() implies #[trigger] lists(order, v) by {
            if v == n {
                assert(order[p] == v);
            } else {
                assert(lists(before, v));
                let a = choose|a: int| 0 <= a < before.len() && #[trigger] before[a] == v;
                assert(order[if a < p {
                    a
                } else {
                    a + 1
                }] == v);
            }
        }
        assert forall|a: int, b: int| 0 <= a < b < order.len() implies lex_le(
            keys[(#[trigger] order[a]) as int],
            keys[(#[trigger] order[b]) as int],
        ) && (lex_le(keys[order[b] as int], keys[order[a] as int]) ==> order[a] < order[b]) by {
            if a == p {
                assert(order[b] == before[b - 1]);
                let later = keys[before[b - 1] as int];
                if p < b - 1 {
                    assert(lex_le(rest[before[p] as int], rest[before[b - 1] as int]));
                }
                if lex_le(later, key) {
                    if p < b - 1 {
                        lex_le_transitive(keys[before[p] as int], later, key);
                    }
                    assert(false);
                }
                lex_le_total(key, later);
            } else if b == p {
                assert(order[a] == before[a]);
            } else {
                let x = if a < p {
                    a
                } else {
                    a - 1
                };
                let y = if b < p {
                    b
                } else {
                    b - 1
                };
                assert(order[a] == before[x] && order[b] == before[y]);
                assert(lex_le(rest[before[x] as int], rest[before[y] as int]));
            }
        }
        order
    }
}

/// The slots of `keys` in their order, of which there is only one.
pub fn sort_slots(keys: &Vec<Vec<u64>>) -> (order: Vec<usize>)
    ensures
        sorts(key_views(keys@), order@),
        order@ == sorted(key_views(keys@)),
{
    let order = sort_order(keys);
    let ghost views = key_views(keys@);
    proof {
        assert forall|a: int, b: int| 0 <= a < b < order@.len() implies lex_le(
            views[(#[trigger] order@[a]) as int],
            views[(#[trigger] order@[b]) as int],
        ) && (lex_le(views[order@[b] as int], views[order@[a] as int]) ==> order@[a]
            < order@[b]) by {
            assert(precedes(keys@, order@[a] as int, order@[b] as int));
        }
        assert(sorts(views, order@));
        let other = sorted(views);
        assert(sorts(views, other));
        assert forall|a: int, b: int| 0 <= a < b < other.len() implies precedes(
            keys@,
            (#[trigger] other[a]) as int,
            (#[trigger] other[b]) as int,
        ) by {
            assert(views[other[a] as int] == keys@[other[a] as int]@);
            assert(views[other[b] as int] == keys@[other[b] as int]@);
        }
        assert(is_order(keys@, other, 0, keys.len() as int));
        order_is_unique(keys@, order@, other, 0, keys.len() as int);
    }
    order
}

} // verus!
