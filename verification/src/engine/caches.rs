//! The caches of embeddings, bounded by dropping the least recently used entry.
//!
//! An embedding is kept as the bit patterns of its single-precision components.
use lru::LruCache;
use std::num::NonZeroUsize;
use vstd::prelude::*;

verus! {

// ---------------------------------------------------------------------------
// Entries in order of use
// ---------------------------------------------------------------------------

/// Whether `k` is a key of the entries.
pub open spec fn has_key<K, V>(s: Seq<(K, V)>, k: K) -> bool {
    exists|i: int| 0 <= i < s.len() && (#[trigger] s[i]).0 == k
}

/// The value of the first entry with the key `k`.
pub open spec fn value_of<K, V>(s: Seq<(K, V)>, k: K) -> Option<V>
    decreases s.len(),
{
    if s.len() == 0 {
        None
    } else if s[0].0 == k {
        Some(s[0].1)
    } else {
        value_of(s.skip(1), k)
    }
}

/// The entries without those of the key `k`.
pub open spec fn without<K, V>(s: Seq<(K, V)>, k: K) -> Seq<(K, V)>
    decreases s.len(),
{
    if s.len() == 0 {
        s
    } else if s.last().0 == k {
        without(s.drop_last(), k)
    } else {
        without(s.drop_last(), k).push(s.last())
    }
}

/// The entries without those whose key is one of `gone`.
pub open spec fn without_all<K, V>(s: Seq<(K, V)>, gone: Set<K>) -> Seq<(K, V)>
    decreases s.len(),
{
    if s.len() == 0 {
        s
    } else if gone.contains(s.last().0) {
        without_all(s.drop_last(), gone)
    } else {
        without_all(s.drop_last(), gone).push(s.last())
    }
}

/// The entries after `v` was put under `k`: the new entry is the most recently
/// used one, and where there is no room for it the least recently used goes.
pub open spec fn put_entry<K, V>(s: Seq<(K, V)>, capacity: nat, k: K, v: V) -> Seq<(K, V)> {
    seq![(k, v)] + (if has_key(s, k) || s.len() < capacity {
        without(s, k)
    } else {
        s.drop_last()
    })
}

/// The entries after `k` was looked up: an entry that was found is the most
/// recently used one.
pub open spec fn touch_entry<K, V>(s: Seq<(K, V)>, k: K) -> Seq<(K, V)> {
    match value_of(s, k) {
        Some(v) => seq![(k, v)] + without(s, k),
        None => s,
    }
}

/// Whether no key occurs twice and there are no more entries than the capacity
/// allows.
pub open spec fn bounded<K, V>(s: Seq<(K, V)>, capacity: nat) -> bool {
    &&& s.len() <= capacity
    &&& forall|i: int, j: int|
        0 <= i < j < s.len() ==> (#[trigger] s[i]).0 != (#[trigger] s[j]).0
}

proof fn lemma_value_of<K, V>(s: Seq<(K, V)>, k: K)
    ensures
        has_key(s, k) == (value_of(s, k) is Some),
        value_of(s, k) matches Some(v) ==> exists|i: int|
            0 <= i < s.len() && #[trigger] s[i] == (k, v),
    decreases s.len(),
{
    if s.len() > 0 && s[0].0 != k {
        lemma_value_of(s.skip(1), k);
        if has_key(s, k) {
            let i = choose|i: int| 0 <= i < s.len() && (#[trigger] s[i]).0 == k;
            assert(s.skip(1)[i - 1].0 == k);
        }
        if let Some(v) = value_of(s.skip(1), k) {
            let i = choose|i: int| 0 <= i < s.skip(1).len() && #[trigger] s.skip(1)[i] == (k, v);
            assert(s[i + 1] == (k, v));
        }
    } else if s.len() > 0 {
        assert(s[0] == (k, s[0].1));
    }
}

proof fn lemma_without<K, V>(s: Seq<(K, V)>, k: K)
    ensures
        without(s, k).len() <= s.len(),
        has_key(s, k) ==> without(s, k).len() < s.len(),
        !has_key(s, k) ==> without(s, k) == s,
        forall|i: int|
            0 <= i < without(s, k).len() ==> (#[trigger] without(s, k)[i]).0 != k && s.contains(
                without(s, k)[i],
            ),
        (forall|i: int, j: int|
            0 <= i < j < s.len() ==> (#[trigger] s[i]).0 != (#[trigger] s[j]).0) ==> (forall|
            i: int,
            j: int,
        |
            0 <= i < j < without(s, k).len() ==> (#[trigger] without(s, k)[i]).0 != (
            #[trigger] without(s, k)[j]).0),
    decreases s.len(),
{
    if s.len() > 0 {
        let head = s.drop_last();
        lemma_without(head, k);
        let r = without(head, k);
        assert forall|i: int| 0 <= i < r.len() implies s.contains(#[trigger] r[i]) by {
            assert(head.contains(r[i]));
            let p = choose|p: int| 0 <= p < head.len() && head[p] == r[i];
            assert(s[p] == r[i]);
        }
        if has_key(head, k) {
            let p = choose|p: int| 0 <= p < head.len() && (#[trigger] head[p]).0 == k;
            assert(s[p].0 == k);
        }
        if has_key(s, k) && s.last().0 != k {
            let p = choose|p: int| 0 <= p < s.len() && (#[trigger] s[p]).0 == k;
            assert(head[p].0 == k);
        }
        if s.last().0 == k {
            assert(s[s.len() - 1].0 == k);
        } else {
            assert(s.contains(s[s.len() - 1]));
            if !has_key(s, k) {
                assert(head.push(s.last()) =~= s);
            }
            if forall|i: int, j: int|
                0 <= i < j < s.len() ==> (#[trigger] s[i]).0 != (#[trigger] s[j]).0 {
                assert forall|i: int, j: int| 0 <= i < j < head.len() implies (#[trigger] head[i]).0
                    != (#[trigger] head[j]).0 by {
                    assert(s[i].0 != s[j].0);
                }
                let w = without(s, k);
                assert forall|i: int, j: int| 0 <= i < j < w.len() implies (#[trigger] w[i]).0 != (
                #[trigger] w[j]).0 by {
                    if j == w.len() - 1 {
                        assert(head.contains(r[i]));
                        let p = choose|p: int| 0 <= p < head.len() && head[p] == r[i];
                        assert(s[p].0 != s[s.len() - 1].0);
                    }
                }
            }
        }
        if forall|i: int, j: int|
            0 <= i < j < s.len() ==> (#[trigger] s[i]).0 != (#[trigger] s[j]).0 {
            assert forall|i: int, j: int| 0 <= i < j < head.len() implies (#[trigger] head[i]).0 != (
            #[trigger] head[j]).0 by {
                assert(s[i].0 != s[j].0);
            }
        }
    }
}

/// A cache never holds more entries than its capacity, nor a key twice, whatever
/// is put into it.
pub proof fn put_keeps_the_bound<K, V>(s: Seq<(K, V)>, capacity: nat, k: K, v: V)
    requires
        bounded(s, capacity),
        0 < capacity,
    ensures
        bounded(put_entry(s, capacity, k, v), capacity),
        value_of(put_entry(s, capacity, k, v), k) == Some(v),
{
    lemma_without(s, k);
    let r = put_entry(s, capacity, k, v);
    let rest = if has_key(s, k) || s.len() < capacity {
        without(s, k)
    } else {
        s.drop_last()
    };
    assert(r[0] == (k, v));
    assert forall|i: int, j: int| 0 <= i < j < r.len() implies (#[trigger] r[i]).0 != (
    #[trigger] r[j]).0 by {
        assert(r[j] == rest[j - 1]);
        if i > 0 {
            assert(r[i] == rest[i - 1]);
            if !(has_key(s, k) || s.len() < capacity) {
                assert(s[i - 1].0 != s[j - 1].0);
            }
        } else if !(has_key(s, k) || s.len() < capacity) {
            assert(s[j - 1].0 != k);
        }
    }
}

/// Looking an entry up changes neither the entries nor their number, only their
/// order.
pub proof fn touch_keeps_the_bound<K, V>(s: Seq<(K, V)>, capacity: nat, k: K)
    requires
        bounded(s, capacity),
    ensures
        bounded(touch_entry(s, k), capacity),
        value_of(touch_entry(s, k), k) == value_of(s, k),
{
    lemma_without(s, k);
    lemma_value_of(s, k);
    let r = touch_entry(s, k);
    if let Some(v) = value_of(s, k) {
        assert(r[0] == (k, v));
        let rest = without(s, k);
        assert forall|i: int, j: int| 0 <= i < j < r.len() implies (#[trigger] r[i]).0 != (
        #[trigger] r[j]).0 by {
            assert(r[j] == rest[j - 1]);
            if i > 0 {
                assert(r[i] == rest[i - 1]);
            }
        }
    }
}

/// A key that was taken out is no longer found.
pub proof fn removed_key_is_not_found<K, V>(s: Seq<(K, V)>, capacity: nat, k: K)
    requires
        bounded(s, capacity),
    ensures
        bounded(without(s, k), capacity),
        value_of(without(s, k), k) is None,
{
    lemma_without(s, k);
    lemma_value_of(without(s, k), k);
}

/// Whether no key occurs twice.
pub open spec fn distinct_keys<K, V>(s: Seq<(K, V)>) -> bool {
    forall|i: int, j: int| 0 <= i < j < s.len() ==> (#[trigger] s[i]).0 != (#[trigger] s[j]).0
}

proof fn lemma_without_all<K, V>(s: Seq<(K, V)>, gone: Set<K>)
    ensures
        without_all(s, gone).len() <= s.len(),
        forall|x: (K, V)| #[trigger]
            without_all(s, gone).contains(x) <==> s.contains(x) && !gone.contains(x.0),
        distinct_keys(s) ==> distinct_keys(without_all(s, gone)),
    decreases s.len(),
{
    if s.len() > 0 {
        let head = s.drop_last();
        let r = without_all(head, gone);
        let w = without_all(s, gone);
        lemma_without_all(head, gone);
        assert forall|x: (K, V)| s.contains(x) == (head.contains(x) || x == s.last()) by {
            if s.contains(x) {
                let i = choose|i: int| 0 <= i < s.len() && s[i] == x;
                if i < head.len() {
                    assert(head[i] == x);
                }
            }
            if head.contains(x) {
                let i = choose|i: int| 0 <= i < head.len() && head[i] == x;
                assert(s[i] == x);
            }
            assert(s[s.len() - 1] == s.last());
        }
        assert forall|x: (K, V)| #[trigger] w.contains(x) <==> s.contains(x) && !gone.contains(
            x.0,
        ) by {
            if !gone.contains(s.last().0) {
                assert(w == r.push(s.last()));
                assert(w[r.len() as int] == s.last());
                if w.contains(x) {
                    let i = choose|i: int| 0 <= i < w.len() && w[i] == x;
                    if i < r.len() {
                        assert(r[i] == x);
                        assert(r.contains(x));
                    }
                }
                if r.contains(x) {
                    let i = choose|i: int| 0 <= i < r.len() && r[i] == x;
                    assert(w[i] == x);
                }
            }
        }
        if distinct_keys(s) {
            assert forall|i: int, j: int| 0 <= i < j < head.len() implies (#[trigger] head[i]).0 != (
            #[trigger] head[j]).0 by {
                assert(s[i].0 != s[j].0);
            }
            assert forall|i: int, j: int| 0 <= i < j < w.len() implies (#[trigger] w[i]).0 != (
            #[trigger] w[j]).0 by {
                if j == r.len() {
                    assert(r.contains(r[i]));
                    assert(head.contains(r[i]));
                    let p = choose|p: int| 0 <= p < head.len() && head[p] == r[i];
                    assert(s[p].0 != s[s.len() - 1].0);
                } else {
                    assert(r[i].0 != r[j].0);
                }
            }
        }
    }
}

/// Taking one more key out is taking out one more.
pub proof fn lemma_without_one_more<K, V>(s: Seq<(K, V)>, gone: Set<K>, k: K)
    ensures
        without(without_all(s, gone), k) == without_all(s, gone.insert(k)),
    decreases s.len(),
{
    if s.len() > 0 {
        lemma_without_one_more(s.drop_last(), gone, k);
        if !gone.contains(s.last().0) {
            let r = without_all(s.drop_last(), gone);
            assert(r.push(s.last()).drop_last() =~= r);
        }
    }
}

/// Where no key is taken out, all entries stay.
pub proof fn lemma_without_none<K, V>(s: Seq<(K, V)>)
    ensures
        without_all(s, Set::<K>::empty()) == s,
    decreases s.len(),
{
    if s.len() > 0 {
        lemma_without_none(s.drop_last());
        assert(s.drop_last().push(s.last()) =~= s);
    }
}

/// Keys that were taken out are no longer found; every other key is found with
/// what it had.
pub proof fn only_removed_keys_are_not_found<K, V>(
    s: Seq<(K, V)>,
    capacity: nat,
    gone: Set<K>,
    k: K,
)
    requires
        bounded(s, capacity),
    ensures
        bounded(without_all(s, gone), capacity),
        value_of(without_all(s, gone), k) == (if gone.contains(k) {
            None
        } else {
            value_of(s, k)
        }),
{
    let w = without_all(s, gone);
    assert(distinct_keys(s));
    lemma_without_all(s, gone);
    lemma_value_of(s, k);
    lemma_value_of(w, k);
    if let Some(v) = value_of(w, k) {
        let i = choose|i: int| 0 <= i < w.len() && #[trigger] w[i] == (k, v);
        assert(w.contains((k, v)));
        let p = choose|p: int| 0 <= p < s.len() && s[p] == (k, v);
        assert(s[p].0 == k);
        assert(has_key(s, k));
        let u = value_of(s, k)->0;
        let q = choose|q: int| 0 <= q < s.len() && #[trigger] s[q] == (k, u);
        assert(p == q) by {
            if p < q {
                assert(s[p].0 != s[q].0);
            } else if q < p {
                assert(s[q].0 != s[p].0);
            }
        }
    } else if !gone.contains(k) {
        if let Some(u) = value_of(s, k) {
            let q = choose|q: int| 0 <= q < s.len() && #[trigger] s[q] == (k, u);
            assert(s.contains((k, u)));
            assert(w.contains((k, u)));
            let i = choose|i: int| 0 <= i < w.len() && w[i] == (k, u);
            assert(w[i].0 == k);
        }
    }
}

// ---------------------------------------------------------------------------
// The caches of the outside crate
// ---------------------------------------------------------------------------

/// `lru::LruCache`, a map that drops its least recently used entry when full.
#[verifier::external_type_specification]
#[verifier::external_body]
#[verifier::reject_recursive_types(K)]
#[verifier::reject_recursive_types(V)]
#[verifier::reject_recursive_types(S)]
pub struct ExLruCache<K, V, S>(LruCache<K, V, S>);

/// `lru::DefaultHasher`, the hasher of a cache.
#[verifier::external_type_specification]
#[verifier::external_body]
pub struct ExLruHasher(lru::DefaultHasher);

/// The entries of a cache of chunk embeddings, most recently used first.
pub uninterp spec fn embedding_entries(c: LruCache<String, Vec<u32>>) -> Seq<(Seq<char>, Seq<u32>)>;

/// How many entries a cache of chunk embeddings may hold.
pub uninterp spec fn embedding_capacity(c: LruCache<String, Vec<u32>>) -> nat;

/// The entries of a cache of query embeddings, most recently used first.
pub uninterp spec fn query_entries(c: LruCache<u64, Vec<u32>>) -> Seq<(u64, Seq<u32>)>;

/// How many entries a cache of query embeddings may hold.
pub uninterp spec fn query_capacity(c: LruCache<u64, Vec<u32>>) -> nat;

/// `LruCache::unbounded` and `LruCache::resize`: an empty cache of the given
/// capacity. No room is set aside beforehand.
#[verifier::external_body]
fn new_embeddings(capacity: usize) -> (c: LruCache<String, Vec<u32>>)
    requires
        0 < capacity,
    ensures
        embedding_entries(c) =~= Seq::empty(),
        embedding_capacity(c) == capacity,
{
    let mut cache = LruCache::unbounded();
    cache.resize(NonZeroUsize::new(capacity).unwrap());
    cache
}

/// `LruCache::put`: the entry becomes the most recently used one; where a new
/// key finds the cache full, the least recently used entry is dropped.
#[verifier::external_body]
fn put_embedding(c: &mut LruCache<String, Vec<u32>>, key: String, value: Vec<u32>)
    ensures
        embedding_entries(*final(c)) == put_entry(
            embedding_entries(*old(c)),
            embedding_capacity(*old(c)),
            key@,
            value@,
        ),
        embedding_capacity(*final(c)) == embedding_capacity(*old(c)),
{
    c.put(key, value);
}

/// `LruCache::peek`: the value of the key; the order of use is not touched.
#[verifier::external_body]
fn peek_embedding(c: &LruCache<String, Vec<u32>>, key: &str) -> (r: Option<Vec<u32>>)
    ensures
        match r {
            Some(v) => value_of(embedding_entries(*c), key@) == Some(v@),
            None => value_of(embedding_entries(*c), key@) is None,
        },
{
    c.peek(key).cloned()
}

/// `LruCache::pop`: takes out the entry of the key.
#[verifier::external_body]
fn pop_embedding(c: &mut LruCache<String, Vec<u32>>, key: &str)
    ensures
        embedding_entries(*final(c)) == without(embedding_entries(*old(c)), key@),
        embedding_capacity(*final(c)) == embedding_capacity(*old(c)),
{
    c.pop(key);
}

/// `LruCache::is_empty`: whether there is no entry.
#[verifier::external_body]
fn embeddings_empty(c: &LruCache<String, Vec<u32>>) -> (r: bool)
    ensures
        r == (embedding_entries(*c).len() == 0),
{
    c.is_empty()
}

/// `LruCache::unbounded` and `LruCache::resize`: an empty cache of the given
/// capacity. No room is set aside beforehand.
#[verifier::external_body]
fn new_queries(capacity: usize) -> (c: LruCache<u64, Vec<u32>>)
    requires
        0 < capacity,
    ensures
        query_entries(c) =~= Seq::empty(),
        query_capacity(c) == capacity,
{
    let mut cache = LruCache::unbounded();
    cache.resize(NonZeroUsize::new(capacity).unwrap());
    cache
}

/// `LruCache::put`: the entry becomes the most recently used one; where a new
/// key finds the cache full, the least recently used entry is dropped.
#[verifier::external_body]
fn put_query(c: &mut LruCache<u64, Vec<u32>>, key: u64, value: Vec<u32>)
    ensures
        query_entries(*final(c)) == put_entry(
            query_entries(*old(c)),
            query_capacity(*old(c)),
            key,
            value@,
        ),
        query_capacity(*final(c)) == query_capacity(*old(c)),
{
    c.put(key, value);
}

/// `LruCache::get`: the value of the key, whose entry becomes the most recently
/// used one.
#[verifier::external_body]
fn get_query(c: &mut LruCache<u64, Vec<u32>>, key: u64) -> (r: Option<Vec<u32>>)
    ensures
        match r {
            Some(v) => value_of(query_entries(*old(c)), key) == Some(v@),
            None => value_of(query_entries(*old(c)), key) is None,
        },
        query_entries(*final(c)) == touch_entry(query_entries(*old(c)), key),
        query_capacity(*final(c)) == query_capacity(*old(c)),
{
    c.get(&key).cloned()
}

// ---------------------------------------------------------------------------
// Chunk embeddings
// ---------------------------------------------------------------------------

/// The embeddings of recently written chunks, by chunk id.
pub struct EmbeddingCache {
    cache: LruCache<String, Vec<u32>>,
}

impl View for EmbeddingCache {
    type V = Seq<(Seq<char>, Seq<u32>)>;

    closed spec fn view(&self) -> Seq<(Seq<char>, Seq<u32>)> {
        embedding_entries(self.cache)
    }
}

impl EmbeddingCache {
    /// How many entries the cache may hold.
    pub closed spec fn capacity(&self) -> nat {
        embedding_capacity(self.cache)
    }

    /// Whether the cache keeps to its capacity.
    pub open spec fn wf(&self) -> bool {
        0 < self.capacity() && bounded(self@, self.capacity())
    }

    /// An empty cache.
    pub fn new(capacity: usize) -> (c: EmbeddingCache)
        requires
            0 < capacity,
        ensures
            c.wf(),
            c.capacity() == capacity,
            c@ == Seq::<(Seq<char>, Seq<u32>)>::empty(),
    {
        EmbeddingCache { cache: new_embeddings(capacity) }
    }

    /// Puts the embedding of a chunk.
    pub fn put(&mut self, id: String, embedding: Vec<u32>)
        requires
            old(self).wf(),
        ensures
            final(self).wf(),
            final(self).capacity() == old(self).capacity(),
            final(self)@ == put_entry(old(self)@, old(self).capacity(), id@, embedding@),
    {
        proof {
            put_keeps_the_bound(self@, self.capacity(), id@, embedding@);
        }
        put_embedding(&mut self.cache, id, embedding);
    }

    /// The embedding of a chunk, without making it count as used.
    pub fn peek(&self, id: &str) -> (r: Option<Vec<u32>>)
        ensures
            match r {
                Some(v) => value_of(self@, id@) == Some(v@),
                None => value_of(self@, id@) is None,
            },
    {
        peek_embedding(&self.cache, id)
    }

    /// Drops the embedding of a chunk.
    pub fn pop(&mut self, id: &str)
        requires
            old(self).wf(),
        ensures
            final(self).wf(),
            final(self).capacity() == old(self).capacity(),
            final(self)@ == without(old(self)@, id@),
    {
        proof {
            removed_key_is_not_found(self@, self.capacity(), id@);
        }
        pop_embedding(&mut self.cache, id);
    }

    /// Whether no embedding is kept.
    pub fn is_empty(&self) -> (r: bool)
        ensures
            r == (self@.len() == 0),
    {
        embeddings_empty(&self.cache)
    }
}

// ---------------------------------------------------------------------------
// Query embeddings
// ---------------------------------------------------------------------------

/// The embeddings of recent queries, by the hash of the query.
pub struct QueryCache {
    cache: LruCache<u64, Vec<u32>>,
}

impl View for QueryCache {
    type V = Seq<(u64, Seq<u32>)>;

    closed spec fn view(&self) -> Seq<(u64, Seq<u32>)> {
        query_entries(self.cache)
    }
}

impl QueryCache {
    /// How many entries the cache may hold.
    pub closed spec fn capacity(&self) -> nat {
        query_capacity(self.cache)
    }

    /// Whether the cache keeps to its capacity.
    pub open spec fn wf(&self) -> bool {
        0 < self.capacity() && bounded(self@, self.capacity())
    }

    /// An empty cache.
    pub fn new(capacity: usize) -> (c: QueryCache)
        requires
            0 < capacity,
        ensures
            c.wf(),
            c.capacity() == capacity,
            c@ == Seq::<(u64, Seq<u32>)>::empty(),
    {
        QueryCache { cache: new_queries(capacity) }
    }

    /// The embedding kept under the hash, which then counts as just used.
    pub fn get(&mut self, key: u64) -> (r: Option<Vec<u32>>)
        requires
            old(self).wf(),
        ensures
            final(self).wf(),
            final(self).capacity() == old(self).capacity(),
            final(self)@ == touch_entry(old(self)@, key),
            match r {
                Some(v) => value_of(old(self)@, key) == Some(v@),
                None => value_of(old(self)@, key) is None,
            },
    {
        proof {
            touch_keeps_the_bound(self@, self.capacity(), key);
        }
        get_query(&mut self.cache, key)
    }

    /// Puts the embedding of a query.
    pub fn put(&mut self, key: u64, embedding: Vec<u32>)
        requires
            old(self).wf(),
        ensures
            final(self).wf(),
            final(self).capacity() == old(self).capacity(),
            final(self)@ == put_entry(old(self)@, old(self).capacity(), key, embedding@),
    {
        proof {
            put_keeps_the_bound(self@, self.capacity(), key, embedding@);
        }
        put_query(&mut self.cache, key, embedding);
    }
}

} // verus!
