//! Writing files to an index.
use crate::engine::caches::{
    bounded, has_key, put_entry, put_keeps_the_bound, touch_entry, touch_keeps_the_bound,
    value_of, without,
};
use crate::engine::chunk::{chunk_views, lexical_text, with_virtual_terms, RawChunk, RawChunkView, RawEntity};
use crate::engine::indexer::{
    add_chunk_spec, admits_chunk, batch_cleared, batch_indexed, batch_texts, cap_spec,
    contents_of, corpus_with, documents_with, dropped_of, embed_batches_spec, embed_mismatch,
    embedding_views, embeddings_with, entities_with, ids_of, is_chunks_of_file, is_tuple_of,
    paths_of, remove_chunk_spec, stale, vectors_of_spec, IndexView, SymbolTuple,
};
use crate::engine::indexing::{
    chunks_added, chunks_of_files, enriched, entities_of_files, file_cleared, file_indexed,
    named_chunks, ParsedFile,
};
use crate::laws::checkup::{middle_stands_in_the_whole, stands_in};
use crate::laws::chunks::{named_on_lines, terms_are_the_entities_on_the_lines};
use crate::text::decimal;
use vstd::prelude::*;

verus! {

// ---------------------------------------------------------------------------
// Entries of a cache
// ---------------------------------------------------------------------------

proof fn lemma_without_position<K, V>(s: Seq<(K, V)>, k: K, p: int) -> (q: int)
    requires
        0 <= p < s.len(),
        s[p].0 != k,
    ensures
        0 <= q <= p,
        q < without(s, k).len(),
        without(s, k)[q] == s[p],
    decreases s.len(),
{
    let head = s.drop_last();
    if p < head.len() {
        assert(head[p] == s[p]);
        lemma_without_position(head, k, p)
    } else {
        lemma_without_is_shorter(head, k);
        without(head, k).len() as int
    }
}

proof fn lemma_without_is_shorter<K, V>(s: Seq<(K, V)>, k: K)
    ensures
        without(s, k).len() <= s.len(),
    decreases s.len(),
{
    if s.len() > 0 {
        lemma_without_is_shorter(s.drop_last(), k);
    }
}

proof fn lemma_value_at<K, V>(s: Seq<(K, V)>, capacity: nat, p: int)
    requires
        bounded(s, capacity),
        0 <= p < s.len(),
    ensures
        value_of(s, s[p].0) == Some(s[p].1),
    decreases s.len(),
{
    if p > 0 {
        assert(s[0].0 != s[p].0);
        let rest = s.skip(1);
        assert forall|i: int, j: int| 0 <= i < j < rest.len() implies (#[trigger] rest[i]).0 != (
        #[trigger] rest[j]).0 by {
            assert(s[i + 1].0 != s[j + 1].0);
        }
        assert(rest[p - 1] == s[p]);
        lemma_value_at(rest, capacity, p - 1);
    }
}

proof fn lemma_put_position<K, V>(s: Seq<(K, V)>, capacity: nat, k: K, v: V, p: int) -> (q: int)
    requires
        0 <= p < s.len(),
        s[p].0 != k,
        p + 1 < capacity,
    ensures
        0 <= q <= p + 1,
        q < put_entry(s, capacity, k, v).len(),
        put_entry(s, capacity, k, v)[q] == s[p],
{
    if has_key(s, k) || s.len() < capacity {
        let q = lemma_without_position(s, k, p);
        q + 1
    } else {
        assert(s.drop_last()[p] == s[p]);
        p + 1
    }
}

/// What was put into a cache is found, and what was there is found as before,
/// unless the cache was full and it was the entry that had been used least
/// recently.
pub proof fn put_entries_are_found<K, V>(s: Seq<(K, V)>, capacity: nat, k: K, v: V, p: int)
    requires
        bounded(s, capacity),
        0 < capacity,
        0 <= p < s.len(),
    ensures
        value_of(put_entry(s, capacity, k, v), k) == Some(v),
        s[p].0 != k && (p + 1 < s.len() || s.len() < capacity || has_key(s, k)) ==> value_of(
            put_entry(s, capacity, k, v),
            s[p].0,
        ) == Some(s[p].1),
{
    put_keeps_the_bound(s, capacity, k, v);
    let after = put_entry(s, capacity, k, v);
    if s[p].0 != k && (p + 1 < s.len() || s.len() < capacity || has_key(s, k)) {
        let q: int = if has_key(s, k) || s.len() < capacity {
            lemma_without_position(s, k, p) + 1
        } else {
            assert(s.drop_last()[p] == s[p]);
            p + 1
        };
        assert(after[q] == s[p]);
        lemma_value_at(after, capacity, q);
    }
}

/// Looking an entry up loses none: each is found as before, and the one that was
/// looked up is the most recently used.
pub proof fn looking_up_loses_nothing<K, V>(s: Seq<(K, V)>, capacity: nat, k: K, p: int)
    requires
        bounded(s, capacity),
        0 <= p < s.len(),
    ensures
        value_of(touch_entry(s, k), s[p].0) == Some(s[p].1),
        s[p].0 == k ==> touch_entry(s, k)[0] == s[p],
        value_of(s, k) is None ==> touch_entry(s, k) == s,
{
    touch_keeps_the_bound(s, capacity, k);
    lemma_value_at(s, capacity, p);
    if s[p].0 != k && value_of(s, k) is Some {
        let q = lemma_without_position(s, k, p);
        assert(touch_entry(s, k)[q + 1] == s[p]);
        lemma_value_at(touch_entry(s, k), capacity, q + 1);
    }
}

// ---------------------------------------------------------------------------
// One file
// ---------------------------------------------------------------------------

proof fn lemma_added_bounded(
    v: IndexView,
    max_chunks: usize,
    capacity: nat,
    components: bool,
    chunks: Seq<RawChunkView>,
    vectors: Seq<Result<Seq<u32>, Seq<char>>>,
)
    requires
        bounded(v.embeddings, capacity),
        0 < capacity,
    ensures
        bounded(
            chunks_added(v, max_chunks, capacity, components, chunks, vectors).0.embeddings,
            capacity,
        ),
    decreases chunks.len(),
{
    if chunks.len() > 0 {
        let head = chunks.drop_last();
        lemma_added_bounded(v, max_chunks, capacity, components, head, vectors);
        let before = chunks_added(v, max_chunks, capacity, components, head, vectors).0;
        if let Ok(e) = vectors[chunks.len() - 1] {
            put_keeps_the_bound(before.embeddings, capacity, chunks.last().id, e);
        }
    }
}

/// Whether the entry stands among the first `n` of the entries.
spec fn stands_among<K, V>(s: Seq<(K, V)>, x: (K, V), n: int) -> bool {
    exists|p: int| 0 <= p < n && p < s.len() && #[trigger] s[p] == x
}

proof fn lemma_added(
    v: IndexView,
    max_chunks: usize,
    capacity: nat,
    components: bool,
    chunks: Seq<RawChunkView>,
    vectors: Seq<Result<Seq<u32>, Seq<char>>>,
    i: int,
    n: int,
)
    requires
        0 <= i < n <= chunks.len(),
        chunks_added(v, max_chunks, capacity, components, chunks.take(n), vectors).1 is None,
        forall|j: int| i < j < n ==> (#[trigger] chunks[j]).id != chunks[i].id,
    ensures
        ({
            let w = chunks_added(v, max_chunks, capacity, components, chunks.take(n), vectors).0;
            let id = chunks[i].id;
            w.corpus.contains_key(id) ==> {
                &&& w.corpus[id] == chunks[i]
                &&& w.documents.contains_key(id)
                &&& w.documents[id] == lexical_text(chunks[i])
                &&& components ==> vectors[i] is Ok
                &&& components && n - i <= capacity ==> stands_among(
                    w.embeddings,
                    (id, vectors[i]->Ok_0),
                    n - i,
                )
            }
        }),
    decreases n,
{
    let part = chunks.take(n);
    let m = n - 1;
    assert(part.drop_last() =~= chunks.take(m));
    assert(part.last() == chunks[m]);
    let before = chunks_added(v, max_chunks, capacity, components, chunks.take(m), vectors).0;
    let w = chunks_added(v, max_chunks, capacity, components, part, vectors).0;
    let id = chunks[i].id;
    assert(chunks_added(v, max_chunks, capacity, components, chunks.take(m), vectors).1 is None);
    if m == i {
        if w.corpus.contains_key(id) && components {
            assert(admits_chunk(before.corpus, max_chunks, id));
            let e = vectors[i]->Ok_0;
            assert(w.embeddings[0] == (id, e));
            assert(stands_among(w.embeddings, (id, e), n - i));
        }
    } else {
        lemma_added(v, max_chunks, capacity, components, chunks, vectors, i, m);
        let c = chunks[m];
        assert(c.id != id);
        if w.corpus.contains_key(id) && components && n - i <= capacity {
            assert(before.corpus.contains_key(id));
            let x = (id, vectors[i]->Ok_0);
            assert(stands_among(before.embeddings, x, m - i));
            let p = choose|p: int|
                0 <= p < m - i && p < before.embeddings.len() && #[trigger] before.embeddings[p]
                    == x;
            if admits_chunk(before.corpus, max_chunks, c.id) {
                let e = vectors[m]->Ok_0;
                let q = lemma_put_position(before.embeddings, capacity, c.id, e, p);
                assert(w.embeddings[q] == x);
            } else {
                assert(w.embeddings[p] == x);
            }
            assert(stands_among(w.embeddings, x, n - i));
        }
    }
}

proof fn lemma_named_chunk(file: ParsedFile, i: int)
    requires
        0 <= i < file.chunks@.len(),
    ensures
        named_chunks(file).len() == file.chunks@.len(),
        named_chunks(file)[i] == with_virtual_terms(file.chunks@[i]@, file.entities@),
{
    assert(chunk_views(file.chunks@)[i] == file.chunks@[i]@);
}

/// Whether the `i`-th chunk of the file is the last one with its id.
pub open spec fn is_last_version(chunks: Seq<RawChunk>, i: int) -> bool {
    0 <= i < chunks.len() && forall|j: int|
        i < j < chunks.len() ==> (#[trigger] chunks[j]).id@ != chunks[i].id@
}

/// Whether the chunk that the index holds is the parsed one, with the names on its
/// lines as its virtual terms.
pub open spec fn holds_parsed(c: RawChunkView, parsed: RawChunk, entities: Seq<RawEntity>) -> bool {
    &&& c == (RawChunkView { virtual_terms: c.virtual_terms, ..parsed@ })
    &&& c.content == parsed.content@
    &&& c.file == parsed.file@
    &&& c.start_line == parsed.start_line
    &&& c.end_line == parsed.end_line
    &&& forall|t: Seq<char>| #[trigger]
        c.virtual_terms.contains(t) == named_on_lines(
            entities,
            parsed.start_line,
            parsed.end_line,
            t,
        )
}

/// Once a file was indexed, the index holds its chunks as they were parsed, the
/// lexical lane scores the whole content of each, the embedding of each is at hand
/// where an embedder is attached and the cache is large enough, and the entities
/// of the file are those that were found.
pub proof fn indexed_file_can_be_searched(
    v: IndexView,
    max_chunks: usize,
    capacity: nat,
    components: bool,
    file: ParsedFile,
    vectors: Seq<Result<Seq<u32>, Seq<char>>>,
    entities: Seq<RawEntity>,
    i: int,
)
    requires
        file_indexed(v, max_chunks, capacity, components, file, vectors, entities).1 is None,
        is_last_version(file.chunks@, i),
    ensures
        ({
            let w = file_indexed(v, max_chunks, capacity, components, file, vectors, entities).0;
            let id = file.chunks@[i].id@;
            &&& w.corpus.contains_key(id) ==> {
                &&& holds_parsed(w.corpus[id], file.chunks@[i], file.entities@)
                &&& w.documents.contains_key(id)
                &&& file.chunks@[i].content@.is_prefix_of(w.documents[id])
                &&& components ==> vectors[i] is Ok
                &&& components && bounded(v.embeddings, capacity) && file.chunks@.len() <= capacity
                    ==> value_of(w.embeddings, id) == Some(vectors[i]->Ok_0)
            }
            &&& w.entities.contains_key(file.path@) && w.entities[file.path@] == entities
            &&& w.queries == v.queries
        }),
{
    let chunks = named_chunks(file);
    let start = file_cleared(v, file);
    let n = chunks.len() as int;
    lemma_named_chunk(file, i);
    assert(chunks.take(n) =~= chunks);
    assert forall|j: int| i < j < n implies (#[trigger] chunks[j]).id != chunks[i].id by {
        lemma_named_chunk(file, j);
        assert(file.chunks@[j].id@ != file.chunks@[i].id@);
    }
    lemma_added(start, max_chunks, capacity, components, chunks, vectors, i, n);
    crate::laws::chunks::lexical_text_holds_content_and_terms(chunks[i]);
    let c = file.chunks@[i];
    terms_are_the_entities_on_the_lines(file.entities@, c.start_line, c.end_line);
    lemma_added_others(start, max_chunks, capacity, components, chunks, vectors);
    let w = file_indexed(v, max_chunks, capacity, components, file, vectors, entities).0;
    let id = c.id@;
    if w.corpus.contains_key(id) && components && bounded(v.embeddings, capacity)
        && file.chunks@.len() <= capacity {
        crate::engine::caches::only_removed_keys_are_not_found(
            v.embeddings,
            capacity,
            stale(v.corpus, set![file.path@], ids_of(chunks)),
            id,
        );
        lemma_added_bounded(start, max_chunks, capacity, components, chunks, vectors);
        let x = (id, vectors[i]->Ok_0);
        let p = choose|p: int|
            0 <= p < n - i && p < w.embeddings.len() && #[trigger] w.embeddings[p] == x;
        lemma_value_at(w.embeddings, capacity, p);
    }
}

proof fn lemma_added_others(
    v: IndexView,
    max_chunks: usize,
    capacity: nat,
    components: bool,
    chunks: Seq<RawChunkView>,
    vectors: Seq<Result<Seq<u32>, Seq<char>>>,
)
    ensures
        ({
            let w = chunks_added(v, max_chunks, capacity, components, chunks, vectors).0;
            &&& w.queries == v.queries
            &&& w.entities == v.entities
        }),
    decreases chunks.len(),
{
    if chunks.len() > 0 {
        lemma_added_others(v, max_chunks, capacity, components, chunks.drop_last(), vectors);
    }
}

proof fn lemma_added_elsewhere(
    v: IndexView,
    max_chunks: usize,
    capacity: nat,
    components: bool,
    chunks: Seq<RawChunkView>,
    vectors: Seq<Result<Seq<u32>, Seq<char>>>,
    k: Seq<char>,
)
    requires
        forall|j: int| 0 <= j < chunks.len() ==> (#[trigger] chunks[j]).id != k,
    ensures
        ({
            let w = chunks_added(v, max_chunks, capacity, components, chunks, vectors).0;
            &&& w.corpus.contains_key(k) == v.corpus.contains_key(k)
            &&& v.corpus.contains_key(k) ==> w.corpus[k] == v.corpus[k]
            &&& w.documents.contains_key(k) == v.documents.contains_key(k)
            &&& v.documents.contains_key(k) ==> w.documents[k] == v.documents[k]
        }),
    decreases chunks.len(),
{
    if chunks.len() > 0 {
        let head = chunks.drop_last();
        assert forall|j: int| 0 <= j < head.len() implies (#[trigger] head[j]).id != k by {
            assert(head[j] == chunks[j]);
        }
        lemma_added_elsewhere(v, max_chunks, capacity, components, head, vectors, k);
        assert(chunks[chunks.len() - 1].id != k);
    }
}

/// Indexing a file touches nothing but the file: what the index holds under an id
/// that the file does not use stays, chunk and lexical text, unless it was left
/// over from the file's earlier version, in which case both are gone. The entities
/// of every other file stay.
pub proof fn indexing_a_file_touches_only_the_file(
    v: IndexView,
    max_chunks: usize,
    capacity: nat,
    components: bool,
    file: ParsedFile,
    vectors: Seq<Result<Seq<u32>, Seq<char>>>,
    entities: Seq<RawEntity>,
    k: Seq<char>,
    other: Seq<char>,
)
    requires
        forall|j: int| 0 <= j < file.chunks@.len() ==> (#[trigger] file.chunks@[j]).id@ != k,
        other != file.path@,
    ensures
        ({
            let w = file_indexed(v, max_chunks, capacity, components, file, vectors, entities).0;
            &&& v.corpus.contains_key(k) && v.corpus[k].file == file.path@ ==> !w.corpus.contains_key(
                k,
            ) && !w.documents.contains_key(k)
            &&& v.corpus.contains_key(k) && v.corpus[k].file != file.path@ ==> w.corpus.contains_key(
                k,
            ) && w.corpus[k] == v.corpus[k] && w.documents.contains_key(k)
                == v.documents.contains_key(k) && (v.documents.contains_key(k) ==> w.documents[k]
                == v.documents[k])
            &&& !v.corpus.contains_key(k) ==> !w.corpus.contains_key(k)
            &&& w.entities.contains_key(other) == v.entities.contains_key(other)
            &&& v.entities.contains_key(other) ==> w.entities[other] == v.entities[other]
            &&& w.queries == v.queries
        }),
{
    let chunks = named_chunks(file);
    let start = file_cleared(v, file);
    let ids = chunks.map_values(|c: RawChunkView| c.id);
    assert forall|j: int| 0 <= j < chunks.len() implies (#[trigger] chunks[j]).id != k by {
        lemma_named_chunk(file, j);
        assert(file.chunks@[j].id@ != k);
    }
    assert(!ids_of(chunks).contains(k)) by {
        if ids.contains(k) {
            let j = choose|j: int| 0 <= j < ids.len() && ids[j] == k;
            assert(chunks[j].id == k);
        }
    }
    lemma_added_elsewhere(start, max_chunks, capacity, components, chunks, vectors, k);
    lemma_added_others(start, max_chunks, capacity, components, chunks, vectors);
}

/// A file fails to be indexed only where one of its chunks could not be embedded,
/// and then with that error; its entities are left as they were.
pub proof fn only_a_failed_embedding_stops_a_file(
    v: IndexView,
    max_chunks: usize,
    capacity: nat,
    components: bool,
    file: ParsedFile,
    vectors: Seq<Result<Seq<u32>, Seq<char>>>,
    entities: Seq<RawEntity>,
)
    ensures
        ({
            let (w, error) = file_indexed(
                v,
                max_chunks,
                capacity,
                components,
                file,
                vectors,
                entities,
            );
            &&& !components ==> error is None
            &&& (forall|i: int| 0 <= i < file.chunks@.len() ==> (#[trigger] vectors[i]) is Ok)
                ==> error is None
            &&& error matches Some(e) ==> components && exists|i: int|
                0 <= i < file.chunks@.len() && #[trigger] vectors[i] == Err::<Seq<u32>, Seq<char>>(e)
            &&& error is Some ==> w.entities == v.entities
        }),
{
    lemma_stopped(
        file_cleared(v, file),
        max_chunks,
        capacity,
        components,
        named_chunks(file),
        vectors,
    );
    lemma_added_others(
        file_cleared(v, file),
        max_chunks,
        capacity,
        components,
        named_chunks(file),
        vectors,
    );
    assert(named_chunks(file).len() == file.chunks@.len());
}

proof fn lemma_stopped(
    v: IndexView,
    max_chunks: usize,
    capacity: nat,
    components: bool,
    chunks: Seq<RawChunkView>,
    vectors: Seq<Result<Seq<u32>, Seq<char>>>,
)
    ensures
        ({
            let error = chunks_added(v, max_chunks, capacity, components, chunks, vectors).1;
            error matches Some(e) ==> components && exists|i: int|
                0 <= i < chunks.len() && #[trigger] vectors[i] == Err::<Seq<u32>, Seq<char>>(e)
        }),
    decreases chunks.len(),
{
    if chunks.len() > 0 {
        lemma_stopped(v, max_chunks, capacity, components, chunks.drop_last(), vectors);
        let n = chunks.len() - 1;
        if let Some(e) = chunks_added(v, max_chunks, capacity, components, chunks, vectors).1 {
            if chunks_added(
                v,
                max_chunks,
                capacity,
                components,
                chunks.drop_last(),
                vectors,
            ).1 is None {
                assert(vectors[n] == Err::<Seq<u32>, Seq<char>>(e));
            }
        }
    }
}

/// Where every chunk before it could be embedded, the first chunk that has room and
/// could not be embedded stops the file.
pub proof fn a_failed_embedding_stops_the_file(
    v: IndexView,
    max_chunks: usize,
    capacity: nat,
    file: ParsedFile,
    vectors: Seq<Result<Seq<u32>, Seq<char>>>,
    entities: Seq<RawEntity>,
    i: int,
)
    requires
        0 <= i < file.chunks@.len(),
        vectors[i] is Err,
        file_cleared(v, file).corpus.contains_key(file.chunks@[i].id@),
    ensures
        file_indexed(v, max_chunks, capacity, true, file, vectors, entities).1 is Some,
{
    let chunks = named_chunks(file);
    let start = file_cleared(v, file);
    lemma_named_chunk(file, i);
    assert(chunks.take(chunks.len() as int) =~= chunks);
    lemma_stopped_by(start, max_chunks, capacity, chunks, vectors, i, chunks.len() as int);
}

proof fn lemma_stopped_by(
    v: IndexView,
    max_chunks: usize,
    capacity: nat,
    chunks: Seq<RawChunkView>,
    vectors: Seq<Result<Seq<u32>, Seq<char>>>,
    i: int,
    n: int,
)
    requires
        0 <= i < chunks.len(),
        0 <= n <= chunks.len(),
        vectors[i] is Err,
        v.corpus.contains_key(chunks[i].id),
    ensures
        n > i ==> chunks_added(v, max_chunks, capacity, true, chunks.take(n), vectors).1 is Some,
        chunks_added(v, max_chunks, capacity, true, chunks.take(n), vectors).0.corpus.contains_key(
            chunks[i].id,
        ),
    decreases n,
{
    if n > 0 {
        lemma_stopped_by(v, max_chunks, capacity, chunks, vectors, i, n - 1);
        assert(chunks.take(n).drop_last() =~= chunks.take(n - 1));
        assert(chunks.take(n).last() == chunks[n - 1]);
    }
}

// ---------------------------------------------------------------------------
// Batches
// ---------------------------------------------------------------------------

proof fn lemma_batch_parts(
    corpus: Map<Seq<char>, RawChunkView>,
    documents: Map<Seq<char>, Seq<char>>,
    entries: Seq<(Seq<char>, Seq<u32>)>,
    max_chunks: usize,
    capacity: nat,
    chunks: Seq<RawChunkView>,
    embeddings: Seq<Option<Seq<u32>>>,
    i: int,
    n: int,
)
    requires
        0 <= i < n <= chunks.len(),
        forall|j: int| i < j < n ==> (#[trigger] chunks[j]).id != chunks[i].id,
    ensures
        ({
            let part = chunks.take(n);
            let id = chunks[i].id;
            &&& corpus_with(corpus, max_chunks, part).contains_key(id) ==> corpus_with(
                corpus,
                max_chunks,
                part,
            )[id] == chunks[i]
            &&& documents_with(documents, part).contains_key(id)
            &&& documents_with(documents, part)[id] == lexical_text(chunks[i])
            &&& i < embeddings.len() && embeddings[i] is Some && n - i <= capacity ==> stands_among(
                embeddings_with(entries, capacity, part, embeddings),
                (id, embeddings[i]->0),
                n - i,
            )
        }),
    decreases n,
{
    let part = chunks.take(n);
    let m = n - 1;
    let id = chunks[i].id;
    assert(part.drop_last() =~= chunks.take(m));
    assert(part.last() == chunks[m]);
    let before = embeddings_with(entries, capacity, chunks.take(m), embeddings);
    let after = embeddings_with(entries, capacity, part, embeddings);
    if m == i {
        if i < embeddings.len() && embeddings[i] is Some {
            assert(after[0] == (id, embeddings[i]->0));
            assert(stands_among(after, (id, embeddings[i]->0), n - i));
        }
    } else {
        lemma_batch_parts(
            corpus,
            documents,
            entries,
            max_chunks,
            capacity,
            chunks,
            embeddings,
            i,
            m,
        );
        assert(chunks[m].id != id);
        if i < embeddings.len() && embeddings[i] is Some && n - i <= capacity {
            let x = (id, embeddings[i]->0);
            let p = choose|p: int| 0 <= p < m - i && p < before.len() && #[trigger] before[p] == x;
            if m < embeddings.len() && embeddings[m] is Some {
                let q = lemma_put_position(before, capacity, chunks[m].id, embeddings[m]->0, p);
                assert(after[q] == x);
            } else {
                assert(after[p] == x);
            }
            assert(stands_among(after, x, n - i));
        }
    }
}

proof fn lemma_batch_bounded(
    entries: Seq<(Seq<char>, Seq<u32>)>,
    capacity: nat,
    chunks: Seq<RawChunkView>,
    embeddings: Seq<Option<Seq<u32>>>,
)
    requires
        bounded(entries, capacity),
        0 < capacity,
    ensures
        bounded(embeddings_with(entries, capacity, chunks, embeddings), capacity),
    decreases chunks.len(),
{
    if chunks.len() > 0 {
        let head = chunks.drop_last();
        lemma_batch_bounded(entries, capacity, head, embeddings);
        let n = chunks.len() - 1;
        if n < embeddings.len() {
            if let Some(e) = embeddings[n] {
                put_keeps_the_bound(
                    embeddings_with(entries, capacity, head, embeddings),
                    capacity,
                    chunks.last().id,
                    e,
                );
            }
        }
    }
}

/// Once a batch was written, each of its chunks that found room is held as it was
/// handed in, the lexical lane scores the whole content of each, and the embedding
/// of each is at hand where an embedder is attached and the cache is large enough.
pub proof fn written_batch_can_be_searched(
    v: IndexView,
    max_chunks: usize,
    capacity: nat,
    components: bool,
    chunks: Seq<RawChunk>,
    embeddings: Seq<Option<Vec<u32>>>,
    files: Seq<(Seq<char>, Seq<RawEntity>)>,
    i: int,
)
    requires
        is_last_version(chunks, i),
    ensures
        ({
            let w = batch_indexed(
                v,
                max_chunks,
                capacity,
                components,
                chunk_views(chunks),
                embedding_views(embeddings),
                files,
            );
            let id = chunks[i].id@;
            &&& w.corpus.contains_key(id) ==> w.corpus[id] == chunks[i]@
            &&& w.documents.contains_key(id)
            &&& chunks[i].content@.is_prefix_of(w.documents[id])
            &&& w.documents[id] == lexical_text(chunks[i]@)
            &&& components && bounded(v.embeddings, capacity) && chunks.len() <= capacity && i
                < embeddings.len() && embeddings[i] is Some ==> value_of(w.embeddings, id) == Some(
                embeddings[i]->0@,
            )
            &&& w.queries == v.queries
        }),
{
    let views = chunk_views(chunks);
    let bits = embedding_views(embeddings);
    let n = chunks.len() as int;
    let start = batch_cleared(v, views, files);
    assert(views.take(n) =~= views);
    assert(views[i] == chunks[i]@);
    assert forall|j: int| i < j < n implies (#[trigger] views[j]).id != views[i].id by {
        assert(chunks[j].id@ != chunks[i].id@);
    }
    lemma_batch_parts(
        start.corpus,
        start.documents,
        start.embeddings,
        max_chunks,
        capacity,
        views,
        bits,
        i,
        n,
    );
    crate::laws::chunks::lexical_text_holds_content_and_terms(chunks[i]@);
    let w = batch_indexed(v, max_chunks, capacity, components, views, bits, files);
    let id = chunks[i].id@;
    if components && bounded(v.embeddings, capacity) && chunks.len() <= capacity && i
        < embeddings.len() && embeddings[i] is Some {
        assert(bits[i] == Some(embeddings[i]->0@));
        crate::engine::caches::only_removed_keys_are_not_found(
            v.embeddings,
            capacity,
            stale(v.corpus, crate::engine::indexer::paths_of(files), ids_of(views)),
            id,
        );
        lemma_batch_bounded(start.embeddings, capacity, views, bits);
        let x = (id, embeddings[i]->0@);
        let p = choose|p: int|
            0 <= p < n - i && p < w.embeddings.len() && #[trigger] w.embeddings[p] == x;
        lemma_value_at(w.embeddings, capacity, p);
    }
}

proof fn lemma_written_elsewhere(
    corpus: Map<Seq<char>, RawChunkView>,
    documents: Map<Seq<char>, Seq<char>>,
    max_chunks: usize,
    chunks: Seq<RawChunkView>,
    k: Seq<char>,
)
    requires
        forall|j: int| 0 <= j < chunks.len() ==> (#[trigger] chunks[j]).id != k,
    ensures
        corpus_with(corpus, max_chunks, chunks).contains_key(k) == corpus.contains_key(k),
        corpus_with(corpus, max_chunks, chunks)[k] == corpus[k],
        documents_with(documents, chunks).contains_key(k) == documents.contains_key(k),
        documents_with(documents, chunks)[k] == documents[k],
    decreases chunks.len(),
{
    if chunks.len() > 0 {
        let head = chunks.drop_last();
        assert forall|j: int| 0 <= j < head.len() implies (#[trigger] head[j]).id != k by {
            assert(head[j] == chunks[j]);
        }
        lemma_written_elsewhere(corpus, documents, max_chunks, head, k);
        assert(chunks[chunks.len() - 1].id != k);
    }
}

/// Whether the path is one of the files.
pub open spec fn is_path_of(files: Seq<(Seq<char>, Seq<RawEntity>)>, path: Seq<char>) -> bool {
    exists|i: int| 0 <= i < files.len() && (#[trigger] files[i]).0 == path
}

proof fn lemma_paths_of(files: Seq<(Seq<char>, Seq<RawEntity>)>, path: Seq<char>)
    ensures
        paths_of(files).contains(path) == is_path_of(files, path),
{
    let paths = files.map_values(|f: (Seq<char>, Seq<RawEntity>)| f.0);
    if paths.contains(path) {
        let i = choose|i: int| 0 <= i < paths.len() && paths[i] == path;
        assert(files[i].0 == path);
    }
    if is_path_of(files, path) {
        let i = choose|i: int| 0 <= i < files.len() && (#[trigger] files[i]).0 == path;
        assert(paths[i] == path);
    }
}

proof fn lemma_not_among(chunks: Seq<RawChunkView>, k: Seq<char>)
    requires
        forall|j: int| 0 <= j < chunks.len() ==> (#[trigger] chunks[j]).id != k,
    ensures
        !ids_of(chunks).contains(k),
{
    let ids = chunks.map_values(|c: RawChunkView| c.id);
    if ids.contains(k) {
        let j = choose|j: int| 0 <= j < ids.len() && ids[j] == k;
        assert(chunks[j].id == k);
    }
}

/// Writing a batch touches nothing but its files: under an id that the batch does not
/// use, a chunk of one of its files is gone, with its lexical text, and a chunk of any
/// other file stays, with its lexical text.
pub proof fn writing_a_batch_touches_only_its_files(
    v: IndexView,
    max_chunks: usize,
    capacity: nat,
    components: bool,
    chunks: Seq<RawChunkView>,
    embeddings: Seq<Option<Seq<u32>>>,
    files: Seq<(Seq<char>, Seq<RawEntity>)>,
    k: Seq<char>,
)
    requires
        forall|j: int| 0 <= j < chunks.len() ==> (#[trigger] chunks[j]).id != k,
        v.corpus.contains_key(k),
    ensures
        ({
            let w = batch_indexed(v, max_chunks, capacity, components, chunks, embeddings, files);
            &&& is_path_of(files, v.corpus[k].file) ==> !w.corpus.contains_key(k)
                && !w.documents.contains_key(k)
            &&& !is_path_of(files, v.corpus[k].file) ==> w.corpus.contains_key(k) && w.corpus[k]
                == v.corpus[k] && w.documents.contains_key(k) == v.documents.contains_key(k) && (
            v.documents.contains_key(k) ==> w.documents[k] == v.documents[k])
            &&& w.queries == v.queries
            &&& !components && bounded(v.embeddings, capacity) && !is_path_of(
                files,
                v.corpus[k].file,
            ) ==> value_of(w.embeddings, k) == value_of(v.embeddings, k)
        }),
{
    let start = batch_cleared(v, chunks, files);
    lemma_written_elsewhere(start.corpus, start.documents, max_chunks, chunks, k);
    lemma_paths_of(files, v.corpus[k].file);
    lemma_not_among(chunks, k);
    if bounded(v.embeddings, capacity) {
        crate::engine::caches::only_removed_keys_are_not_found(
            v.embeddings,
            capacity,
            stale(v.corpus, paths_of(files), ids_of(chunks)),
            k,
        );
    }
}

/// The chunks that a new version leaves over are those of its files that it has not
/// written again; a chunk of another file, or one that was written again, is none.
pub proof fn left_over_chunks_are_of_the_files(
    corpus: Map<Seq<char>, RawChunkView>,
    files: Seq<String>,
    fresh: Seq<String>,
    k: Seq<char>,
)
    ensures
        stale(
            corpus,
            crate::text::texts(files).to_set(),
            crate::text::texts(fresh).to_set(),
        ).contains(k) <==> corpus.contains_key(k) && crate::text::has_text(files, corpus[k].file)
            && !crate::text::has_text(fresh, k),
{
    lemma_text_set(files, corpus[k].file);
    lemma_text_set(fresh, k);
}

proof fn lemma_text_set(list: Seq<String>, t: Seq<char>)
    ensures
        crate::text::texts(list).to_set().contains(t) == crate::text::has_text(list, t),
{
    let all = crate::text::texts(list);
    if all.contains(t) {
        let i = choose|i: int| 0 <= i < all.len() && all[i] == t;
        assert(list[i]@ == t);
    }
    if crate::text::has_text(list, t) {
        let i = choose|i: int| 0 <= i < list.len() && (#[trigger] list[i])@ == t;
        assert(all[i] == t);
    }
}

/// The ids that removing a file hands out are those of its chunks, every one of them
/// once.
pub proof fn removing_a_file_names_its_chunks(
    corpus: Map<Seq<char>, RawChunkView>,
    file: Seq<char>,
    ids: Seq<String>,
    k: Seq<char>,
)
    requires
        is_chunks_of_file(corpus, file, ids),
    ensures
        (exists|i: int| 0 <= i < ids.len() && (#[trigger] ids[i])@ == k) <==> corpus.contains_key(k)
            && corpus[k].file == file,
        forall|a: int, b: int|
            0 <= a < b < ids.len() ==> (#[trigger] ids[a])@ != (#[trigger] ids[b])@,
{
    if corpus.contains_key(k) && corpus[k].file == file {
        assert(crate::text::has_text(ids, k));
    }
}

proof fn lemma_entities_elsewhere(
    entities: Map<Seq<char>, Seq<RawEntity>>,
    files: Seq<(Seq<char>, Seq<RawEntity>)>,
    k: Seq<char>,
)
    requires
        forall|j: int| 0 <= j < files.len() ==> (#[trigger] files[j]).0 != k,
    ensures
        entities_with(entities, files).contains_key(k) == entities.contains_key(k),
        entities_with(entities, files)[k] == entities[k],
    decreases files.len(),
{
    if files.len() > 0 {
        let head = files.drop_last();
        assert forall|j: int| 0 <= j < head.len() implies (#[trigger] head[j]).0 != k by {
            assert(head[j] == files[j]);
        }
        lemma_entities_elsewhere(entities, head, k);
        assert(files[files.len() - 1].0 != k);
    }
}

proof fn lemma_entities_set(
    entities: Map<Seq<char>, Seq<RawEntity>>,
    files: Seq<(Seq<char>, Seq<RawEntity>)>,
    i: int,
)
    requires
        0 <= i < files.len(),
        forall|j: int| i < j < files.len() ==> (#[trigger] files[j]).0 != files[i].0,
    ensures
        entities_with(entities, files).contains_key(files[i].0),
        entities_with(entities, files)[files[i].0] == files[i].1,
    decreases files.len(),
{
    let head = files.drop_last();
    let n = files.len() - 1;
    if i < n {
        assert(head[i] == files[i]);
        assert forall|j: int| i < j < head.len() implies (#[trigger] head[j]).0 != head[i].0 by {
            assert(head[j] == files[j]);
        }
        lemma_entities_set(entities, head, i);
        assert(files[n].0 != files[i].0);
    }
}

/// Once a batch was written, each of its files has the entities that came with it.
pub proof fn written_batch_sets_the_entities_of_its_files(
    v: IndexView,
    max_chunks: usize,
    capacity: nat,
    components: bool,
    chunks: Seq<RawChunkView>,
    embeddings: Seq<Option<Seq<u32>>>,
    files: Seq<(Seq<char>, Seq<RawEntity>)>,
    i: int,
)
    requires
        0 <= i < files.len(),
        forall|j: int| i < j < files.len() ==> (#[trigger] files[j]).0 != files[i].0,
    ensures
        ({
            let w = batch_indexed(v, max_chunks, capacity, components, chunks, embeddings, files);
            w.entities.contains_key(files[i].0) && w.entities[files[i].0] == files[i].1
        }),
{
    lemma_entities_set(v.entities, files, i);
}

/// A batch leaves the entities of every other file as they were.
pub proof fn written_batch_keeps_the_entities_of_other_files(
    v: IndexView,
    max_chunks: usize,
    capacity: nat,
    components: bool,
    chunks: Seq<RawChunkView>,
    embeddings: Seq<Option<Seq<u32>>>,
    files: Seq<(Seq<char>, Seq<RawEntity>)>,
    k: Seq<char>,
)
    requires
        forall|j: int| 0 <= j < files.len() ==> (#[trigger] files[j]).0 != k,
    ensures
        ({
            let w = batch_indexed(v, max_chunks, capacity, components, chunks, embeddings, files);
            w.entities.contains_key(k) == v.entities.contains_key(k) && w.entities[k]
                == v.entities[k]
        }),
{
    lemma_entities_elsewhere(v.entities, files, k);
}

proof fn lemma_dropped(
    corpus: Map<Seq<char>, RawChunkView>,
    max_chunks: usize,
    chunks: Seq<RawChunkView>,
)
    requires
        corpus.dom().finite(),
    ensures
        ({
            let w = corpus_with(corpus, max_chunks, chunks);
            &&& w.dom().finite()
            &&& forall|j: int|
                0 <= j < chunks.len() && !w.contains_key((#[trigger] chunks[j]).id) ==> w.dom().len()
                    >= max_chunks
            &&& dropped_of(corpus, max_chunks, chunks) == chunks.filter(
                |c: RawChunkView| !w.contains_key(c.id),
            ).len()
        }),
    decreases chunks.len(),
{
    reveal(Seq::filter);
    if chunks.len() > 0 {
        let head = chunks.drop_last();
        let c = chunks.last();
        lemma_dropped(corpus, max_chunks, head);
        let before = corpus_with(corpus, max_chunks, head);
        let w = corpus_with(corpus, max_chunks, chunks);
        let was_out = |c: RawChunkView| !before.contains_key(c.id);
        let is_out = |c: RawChunkView| !w.contains_key(c.id);
        if admits_chunk(before, max_chunks, c.id) {
            assert(w.dom() =~= before.dom().insert(c.id));
            if !before.contains_key(c.id) {
                assert forall|j: int| 0 <= j < head.len() implies before.contains_key(
                    (#[trigger] head[j]).id,
                ) by {
                }
            }
        }
        assert forall|j: int| 0 <= j < head.len() implies was_out(#[trigger] head[j]) == is_out(
            head[j],
        ) by {
            if was_out(head[j]) && !is_out(head[j]) {
                assert(before.dom().len() >= max_chunks);
            }
        }
        lemma_same_filter(head, was_out, is_out);
        assert forall|j: int|
            0 <= j < chunks.len() && !w.contains_key((#[trigger] chunks[j]).id) implies w.dom().len()
            >= max_chunks by {
            if j < head.len() {
                assert(head[j] == chunks[j]);
                assert(was_out(head[j]) == is_out(head[j]));
            }
        }
    }
}

proof fn lemma_same_filter<A>(s: Seq<A>, p: spec_fn(A) -> bool, q: spec_fn(A) -> bool)
    requires
        forall|i: int| 0 <= i < s.len() ==> p(#[trigger] s[i]) == q(s[i]),
    ensures
        s.filter(p) == s.filter(q),
    decreases s.len(),
{
    reveal(Seq::filter);
    if s.len() > 0 {
        let head = s.drop_last();
        assert forall|i: int| 0 <= i < head.len() implies p(#[trigger] head[i]) == q(head[i]) by {
            assert(head[i] == s[i]);
        }
        lemma_same_filter(head, p, q);
        assert(p(s[s.len() - 1]) == q(s[s.len() - 1]));
    }
}

/// The chunks that count as dropped are those that the index does not hold after
/// the batch was written; a chunk is dropped only where the index is full.
pub proof fn dropped_chunks_are_those_not_held(
    corpus: Map<Seq<char>, RawChunkView>,
    max_chunks: usize,
    chunks: Seq<RawChunkView>,
)
    requires
        corpus.dom().finite(),
    ensures
        dropped_of(corpus, max_chunks, chunks) == chunks.filter(
            |c: RawChunkView| !corpus_with(corpus, max_chunks, chunks).contains_key(c.id),
        ).len(),
        dropped_of(corpus, max_chunks, chunks) > 0 ==> corpus_with(
            corpus,
            max_chunks,
            chunks,
        ).dom().len() >= max_chunks,
        corpus.dom().len() <= max_chunks ==> corpus_with(corpus, max_chunks, chunks).dom().len()
            <= max_chunks,
        forall|k: Seq<char>| #[trigger]
            corpus.contains_key(k) ==> corpus_with(corpus, max_chunks, chunks).contains_key(k),
{
    lemma_dropped(corpus, max_chunks, chunks);
    lemma_corpus_grows(corpus, max_chunks, chunks);
    let w = corpus_with(corpus, max_chunks, chunks);
    let out = |c: RawChunkView| !w.contains_key(c.id);
    if chunks.filter(out).len() > 0 {
        chunks.lemma_filter_pred(out, 0);
        let x = chunks.filter(out)[0];
        lemma_filter_source(chunks, out, 0);
        let j = choose|j: int| 0 <= j < chunks.len() && chunks[j] == x;
        assert(!w.contains_key(chunks[j].id));
    }
}

proof fn lemma_filter_source<A>(s: Seq<A>, p: spec_fn(A) -> bool, i: int)
    requires
        0 <= i < s.filter(p).len(),
    ensures
        s.contains(s.filter(p)[i]),
    decreases s.len(),
{
    reveal(Seq::filter);
    if s.len() > 0 {
        let head = s.drop_last();
        if i < head.filter(p).len() {
            lemma_filter_source(head, p, i);
            let j = choose|j: int| 0 <= j < head.len() && head[j] == head.filter(p)[i];
            assert(s[j] == s.filter(p)[i]);
        } else {
            assert(s[s.len() - 1] == s.filter(p)[i]);
        }
    }
}

proof fn lemma_corpus_grows(
    corpus: Map<Seq<char>, RawChunkView>,
    max_chunks: usize,
    chunks: Seq<RawChunkView>,
)
    requires
        corpus.dom().finite(),
    ensures
        ({
            let w = corpus_with(corpus, max_chunks, chunks);
            &&& w.dom().finite()
            &&& corpus.dom().len() <= max_chunks ==> w.dom().len() <= max_chunks
            &&& forall|k: Seq<char>| #[trigger] corpus.contains_key(k) ==> w.contains_key(k)
        }),
    decreases chunks.len(),
{
    if chunks.len() > 0 {
        lemma_corpus_grows(corpus, max_chunks, chunks.drop_last());
        let before = corpus_with(corpus, max_chunks, chunks.drop_last());
        let c = chunks.last();
        assert(before.insert(c.id, c).dom() =~= before.dom().insert(c.id));
    }
}

/// The chunks of a batch of files are those of the files, one file after the other:
/// those of the first files, then those of the others.
pub proof fn files_are_gathered_in_turn(a: Seq<ParsedFile>, b: Seq<ParsedFile>)
    ensures
        chunks_of_files(a + b) == chunks_of_files(a) + chunks_of_files(b),
        entities_of_files(a + b) == entities_of_files(a) + entities_of_files(b),
    decreases b.len(),
{
    assert(entities_of_files(a + b) =~= entities_of_files(a) + entities_of_files(b));
    if b.len() == 0 {
        assert(a + b =~= a);
        assert(chunks_of_files(a) + chunks_of_files(b) =~= chunks_of_files(a));
    } else {
        assert((a + b).drop_last() =~= a + b.drop_last());
        files_are_gathered_in_turn(a, b.drop_last());
        assert(chunks_of_files(a + b) =~= chunks_of_files(a) + chunks_of_files(b));
    }
}

/// Of one file there are as many chunks as were parsed, in order, each as it was
/// parsed but for its virtual terms, and its entities stand beside its path.
pub proof fn a_file_is_gathered_whole(file: ParsedFile, i: int)
    requires
        0 <= i < file.chunks@.len(),
    ensures
        chunks_of_files(seq![file]).len() == file.chunks@.len(),
        holds_parsed(chunks_of_files(seq![file])[i], file.chunks@[i], file.entities@),
        entities_of_files(seq![file]) == seq![(file.path@, file.entities@)],
{
    let one = seq![file];
    assert(one.drop_last() =~= Seq::empty());
    assert(chunks_of_files(one.drop_last()) =~= Seq::empty());
    assert(chunks_of_files(one) =~= named_chunks(file));
    assert(entities_of_files(one) =~= seq![(file.path@, file.entities@)]);
    lemma_named_chunk(file, i);
    let c = file.chunks@[i];
    terms_are_the_entities_on_the_lines(file.entities@, c.start_line, c.end_line);
}

/// The positions of the first `n` chunks that have an embedding, in ascending order.
pub open spec fn embedded(embeddings: Seq<Option<Seq<u32>>>, n: nat) -> Seq<int> {
    Seq::new(n, |i: int| i).filter(|i: int| i < embeddings.len() && embeddings[i] is Some)
}

/// Whether the entry holds the id and the embedding of the `i`-th chunk.
pub open spec fn is_told(
    chunks: Seq<RawChunkView>,
    embeddings: Seq<Option<Seq<u32>>>,
    i: int,
    told: (Seq<char>, Seq<u32>),
) -> bool {
    &&& 0 <= i < chunks.len()
    &&& i < embeddings.len()
    &&& told.0 == chunks[i].id
    &&& embeddings[i] == Some(told.1)
}

/// What the vector store is told is, in order, the id and the embedding of every
/// chunk that has one, and nothing else.
pub proof fn every_embedded_chunk_is_told(
    chunks: Seq<RawChunkView>,
    embeddings: Seq<Option<Seq<u32>>>,
)
    ensures
        vectors_of_spec(chunks, embeddings).len() == embedded(embeddings, chunks.len()).len(),
        forall|p: int|
            0 <= p < vectors_of_spec(chunks, embeddings).len() ==> is_told(
                chunks,
                embeddings,
                embedded(embeddings, chunks.len())[p],
                #[trigger] vectors_of_spec(chunks, embeddings)[p],
            ),
    decreases chunks.len(),
{
    reveal(Seq::filter);
    assert(Seq::new(0, |i: int| i) =~= Seq::empty());
    assert(embedded(embeddings, 0).len() == 0);
    if chunks.len() > 0 {
        let head = chunks.drop_last();
        every_embedded_chunk_is_told(head, embeddings);
        let all = Seq::new(chunks.len(), |i: int| i);
        let fewer = Seq::new(head.len(), |i: int| i);
        assert(all.drop_last() =~= fewer);
        assert(all.last() == chunks.len() - 1);
        let held = embedded(embeddings, chunks.len());
        let before = embedded(embeddings, head.len());
        let told = vectors_of_spec(chunks, embeddings);
        let earlier = vectors_of_spec(head, embeddings);
        assert forall|p: int| 0 <= p < told.len() implies is_told(
            chunks,
            embeddings,
            held[p],
            #[trigger] told[p],
        ) by {
            if p < earlier.len() {
                assert(told[p] == earlier[p]);
                assert(held[p] == before[p]);
                assert(is_told(head, embeddings, before[p], earlier[p]));
                assert(head[before[p]] == chunks[before[p]]);
            }
        }
    }
}

/// The batches that are embedded hold every text once and in order; none is empty
/// or larger than the others, and only the last may be smaller.
pub proof fn batches_hold_every_text(contents: Seq<Seq<char>>)
    ensures
        embed_batches_spec(contents).flatten() == contents,
        forall|b: int|
            0 <= b < embed_batches_spec(contents).len() ==> 0 < (#[trigger] embed_batches_spec(
                contents,
            )[b]).len() <= 128,
        forall|b: int|
            0 <= b < embed_batches_spec(contents).len() - 1 ==> (#[trigger] embed_batches_spec(
                contents,
            )[b]).len() == 128,
    decreases contents.len(),
{
    let all = embed_batches_spec(contents);
    if contents.len() == 0 {
        assert(all.flatten() =~= contents);
    } else if contents.len() <= 128 {
        assert(all =~= seq![contents]);
        assert(all.drop_first() =~= Seq::empty());
        assert(all.drop_first().flatten() =~= Seq::empty());
        assert(all.flatten() =~= contents);
    } else {
        let rest = contents.skip(128);
        let more = embed_batches_spec(rest);
        batches_hold_every_text(rest);
        assert(all.drop_first() =~= more);
        assert(contents.take(128) + rest =~= contents);
        assert(more.len() > 0);
        assert forall|b: int| 0 <= b < all.len() implies 0 < (#[trigger] all[b]).len() <= 128 by {
            if b > 0 {
                assert(all[b] == more[b - 1]);
            }
        }
        assert forall|b: int| 0 <= b < all.len() - 1 implies (#[trigger] all[b]).len() == 128 by {
            if b > 0 {
                assert(all[b] == more[b - 1]);
            }
        }
    }
}

proof fn lemma_batch_place(contents: Seq<Seq<char>>, i: int)
    requires
        0 <= i < contents.len(),
    ensures
        i / 128 < embed_batches_spec(contents).len(),
        i % 128 < embed_batches_spec(contents)[i / 128].len(),
        embed_batches_spec(contents)[i / 128][i % 128] == contents[i],
    decreases contents.len(),
{
    let all = embed_batches_spec(contents);
    if contents.len() <= 128 {
        assert(all =~= seq![contents]);
    } else if i >= 128 {
        let rest = contents.skip(128);
        lemma_batch_place(rest, i - 128);
        assert(rest[i - 128] == contents[i]);
        let more = embed_batches_spec(rest);
        assert((i - 128) / 128 == i / 128 - 1 && (i - 128) % 128 == i % 128);
        assert(all[i / 128] == more[i / 128 - 1]);
    } else {
        assert(all[0] == contents.take(128));
    }
}

/// The whole content of every chunk is embedded, in its place among the others.
pub proof fn every_content_is_embedded(batches: Seq<Vec<String>>, chunks: Seq<RawChunk>, i: int)
    requires
        batch_texts(batches) == embed_batches_spec(contents_of(chunks)),
        0 <= i < chunks.len(),
    ensures
        i / 128 < batches.len(),
        i % 128 < batches[i / 128]@.len(),
        batches[i / 128]@[i % 128]@ == chunks[i].content@,
{
    lemma_batch_place(contents_of(chunks), i);
    let b = i / 128;
    assert(batch_texts(batches).len() == batches.len());
    assert(batch_texts(batches)[b] == crate::text::texts(batches[b]@));
    assert(contents_of(chunks)[i] == chunks[i].content@);
    assert(crate::text::texts(batches[b]@).len() == batches[b]@.len());
    assert(crate::text::texts(batches[b]@)[i % 128] == batches[b]@[i % 128]@);
}

/// An embedder that hands back a wrong number of embeddings is told both numbers.
pub proof fn mismatch_names_both_numbers(got: nat, expected: nat)
    ensures
        stands_in(decimal(got), embed_mismatch(got, expected)),
        stands_in(decimal(expected), embed_mismatch(got, expected)),
{
    let none = Seq::<char>::empty();
    let head = "embed_batch returned "@;
    let mid = " vectors, expected "@;
    let m = embed_mismatch(got, expected);
    assert(m =~= head + decimal(got) + (mid + decimal(expected)));
    middle_stands_in_the_whole(head, decimal(got), mid + decimal(expected));
    assert(m =~= (head + decimal(got) + mid) + decimal(expected) + none);
    middle_stands_in_the_whole(head + decimal(got) + mid, decimal(expected), none);
}

/// The entities of a file are those that parsing found, then the phrases of its
/// comments, then the clusters of its concepts, which are there only where an
/// embedder is attached.
pub proof fn enriching_keeps_what_was_found(
    base: Seq<RawEntity>,
    phrases: Seq<RawEntity>,
    clusters: Seq<RawEntity>,
    components: bool,
)
    ensures
        base.is_prefix_of(enriched(base, phrases, clusters, components)),
        forall|i: int|
            0 <= i < phrases.len() ==> enriched(base, phrases, clusters, components)[base.len() + i]
                == #[trigger] phrases[i],
        components ==> forall|i: int|
            0 <= i < clusters.len() ==> enriched(base, phrases, clusters, components)[base.len()
                + phrases.len() + i] == #[trigger] clusters[i],
        enriched(base, phrases, clusters, components).len() == base.len() + phrases.len() + (
        if components {
            clusters.len()
        } else {
            0
        }),
{
    let all = enriched(base, phrases, clusters, components);
    assert(base =~= all.subrange(0, base.len() as int));
}

// ---------------------------------------------------------------------------
// Removing, and what the graph is told
// ---------------------------------------------------------------------------

/// A removed chunk takes nothing with it: what is kept for every other chunk stays.
pub proof fn removing_a_chunk_touches_no_other(
    v: IndexView,
    capacity: nat,
    id: Seq<char>,
    p: int,
    other: Seq<char>,
)
    requires
        bounded(v.embeddings, capacity),
        0 <= p < v.embeddings.len(),
        v.embeddings[p].0 != id,
        other != id,
    ensures
        ({
            let w = remove_chunk_spec(v, id);
            &&& !w.corpus.contains_key(id)
            &&& !w.documents.contains_key(id)
            &&& value_of(w.embeddings, id) is None
            &&& value_of(w.embeddings, v.embeddings[p].0) == Some(v.embeddings[p].1)
            &&& w.corpus.contains_key(other) == v.corpus.contains_key(other)
            &&& v.corpus.contains_key(other) ==> w.corpus[other] == v.corpus[other]
            &&& w.documents.contains_key(other) == v.documents.contains_key(other)
            &&& v.documents.contains_key(other) ==> w.documents[other] == v.documents[other]
            &&& w.entities == v.entities
            &&& w.queries == v.queries
        }),
{
    crate::engine::caches::removed_key_is_not_found(v.embeddings, capacity, id);
    let q = lemma_without_position(v.embeddings, id, p);
    lemma_value_at(without(v.embeddings, id), capacity, q);
}

/// What the symbol graph is told of a chunk is what the chunk holds.
pub proof fn tuples_tell_their_chunks(t: SymbolTuple, c: RawChunkView, i: int)
    requires
        is_tuple_of(t, c),
    ensures
        t.id@ == c.id,
        t.file@ == c.file,
        t.chunk_type == c.chunk_type,
        match c.function_name {
            Some(f) => t.function_name matches Some(s) && s@ == f,
            None => t.function_name is None,
        },
        t.calls@.len() == c.calls.len(),
        0 <= i < c.calls.len() ==> t.calls@[i]@ == c.calls[i],
        t.inherits_from@.len() == c.inherits_from.len(),
        0 <= i < c.inherits_from.len() ==> t.inherits_from@[i]@ == c.inherits_from[i],
{
    assert(crate::text::texts(t.calls@).len() == t.calls@.len());
    assert(crate::text::texts(t.inherits_from@).len() == t.inherits_from@.len());
    if 0 <= i < c.calls.len() {
        assert(crate::text::texts(t.calls@)[i] == t.calls@[i]@);
    }
    if 0 <= i < c.inherits_from.len() {
        assert(crate::text::texts(t.inherits_from@)[i] == t.inherits_from@[i]@);
    }
}

/// Whether a chunk may be written depends on the id and on the room alone: one that
/// replaces another always, any other as long as the index is not full.
pub proof fn a_chunk_is_admitted_by_id_or_room(
    v: IndexView,
    max_chunks: usize,
    capacity: nat,
    chunk: RawChunkView,
    embedding: Option<Seq<u32>>,
)
    ensures
        ({
            let w = add_chunk_spec(v, max_chunks, capacity, chunk, embedding);
            let room = v.corpus.contains_key(chunk.id) || v.corpus.dom().len() < max_chunks;
            &&& room ==> w.corpus == v.corpus.insert(chunk.id, chunk) && w.documents.contains_key(
                chunk.id,
            ) && chunk.content.is_prefix_of(w.documents[chunk.id])
            &&& !room ==> w == v
            &&& forall|k: Seq<char>|
                k != chunk.id ==> (#[trigger] w.documents.contains_key(k))
                    == v.documents.contains_key(k) && (v.documents.contains_key(k)
                    ==> w.documents[k] == v.documents[k])
            &&& embedding is None ==> w.embeddings == v.embeddings
            &&& w.entities == v.entities
            &&& w.queries == v.queries
        }),
{
    crate::laws::chunks::lexical_text_holds_content_and_terms(chunk);
}

/// A setting that is not set, or is no positive number, leaves the default; any
/// limit that comes of a positive default is positive.
pub proof fn settings_fall_back_to_the_default(raw: Option<Seq<char>>, default: usize)
    ensures
        raw is None ==> cap_spec(raw, default) == default,
        raw == Some(seq!['0']) ==> cap_spec(raw, default) == default,
        default > 0 ==> cap_spec(raw, default) > 0,
{
    if raw == Some(seq!['0']) {
        let s = seq!['0'];
        assert(s.drop_last() =~= Seq::empty());
        assert(crate::text::digits_value(s.drop_last()) == 0);
        assert(crate::text::digits_value(s) == 0);
    }
}

/// A setting that is a positive number is that number.
pub proof fn settings_are_the_numbers_they_spell(n: nat, default: usize)
    requires
        0 < n <= usize::MAX,
    ensures
        cap_spec(Some(crate::text::decimal(n)), default) == n,
{
    crate::laws::text::numbers_are_read_as_they_are_written(n);
}

} // verus!
