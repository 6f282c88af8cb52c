//! One index: its chunks, the text the lexical lane scores, the entities of its
//! files, and the embeddings it keeps at hand.
//!
//! The embedder and the vector store are the caller's. The index says what to
//! embed and what to store, and takes the embeddings back as bit patterns.
use crate::engine::caches::{
    lemma_without_none, lemma_without_one_more, only_removed_keys_are_not_found, put_entry,
    touch_entry, value_of, without, without_all, EmbeddingCache, QueryCache,
};
use crate::engine::chunk::{
    bm25_doc_text, chunk_views, hash_query, lexical_text, query_hash, ChunkType, RawChunk,
    RawChunkView, RawEntity,
};
use crate::engine::memguard::opt_str;
use crate::engine::table::Table;
use crate::text::{concat, decimal, decimal_text, parse_u64, same_text, unsigned_value};
use vstd::prelude::*;
use vstd::string::*;

verus! {

/// Query embeddings kept at hand.
pub const QUERY_CACHE_CAPACITY: usize = 256;

/// Chunk embeddings kept at hand where no other number is set.
pub const DEFAULT_EMBEDDING_CACHE_CAP: usize = 10_000;

/// Chunks of one index where no other number is set.
pub const DEFAULT_MAX_CHUNKS_PER_INDEX: usize = 500_000;

/// Chunks that are embedded together.
pub const EMBED_BATCH_SIZE: usize = 128;

// ---------------------------------------------------------------------------
// Settings
// ---------------------------------------------------------------------------

/// The number that a setting stands for: a positive number that fits, or the
/// default.
pub open spec fn cap_spec(raw: Option<Seq<char>>, default: usize) -> usize {
    match raw {
        Some(s) => match unsigned_value(s) {
            Some(n) => if 0 < n <= usize::MAX {
                n as usize
            } else {
                default
            },
            None => default,
        },
        None => default,
    }
}

fn cap_from(raw: Option<&str>, default: usize) -> (n: usize)
    ensures
        n == cap_spec(opt_str(raw), default),
{
    match raw {
        Some(s) => match parse_u64(s) {
            Some(n) => if n > 0 && n <= usize::MAX as u64 {
                n as usize
            } else {
                default
            },
            None => default,
        },
        None => default,
    }
}

/// The number of chunk embeddings to keep, from the value of
/// `TRUSTY_EMBEDDING_CACHE`.
pub fn embedding_cache_cap(raw: Option<&str>) -> (n: usize)
    ensures
        n == cap_spec(opt_str(raw), DEFAULT_EMBEDDING_CACHE_CAP),
{
    cap_from(raw, DEFAULT_EMBEDDING_CACHE_CAP)
}

/// The number of chunks that an index may hold, from the value of
/// `TRUSTY_MAX_CHUNKS`.
pub fn max_chunks_per_index(raw: Option<&str>) -> (n: usize)
    ensures
        n == cap_spec(opt_str(raw), DEFAULT_MAX_CHUNKS_PER_INDEX),
{
    cap_from(raw, DEFAULT_MAX_CHUNKS_PER_INDEX)
}

// ---------------------------------------------------------------------------
// What an index holds
// ---------------------------------------------------------------------------

/// What an index holds.
#[verifier::ext_equal]
pub struct IndexView {
    /// The chunks, by id.
    pub corpus: Map<Seq<char>, RawChunkView>,
    /// The text that the lexical lane scores, by chunk id.
    pub documents: Map<Seq<char>, Seq<char>>,
    /// The entities, by file.
    pub entities: Map<Seq<char>, Seq<RawEntity>>,
    /// The chunk embeddings at hand, most recently written first.
    pub embeddings: Seq<(Seq<char>, Seq<u32>)>,
    /// The query embeddings at hand, most recently used first.
    pub queries: Seq<(u64, Seq<u32>)>,
}

/// One index of source text.
pub struct CodeIndexer {
    index_id: String,
    root_path: String,
    components: bool,
    max_chunks: usize,
    chunks: Table<RawChunk>,
    documents: Table<String>,
    entities: Table<Vec<RawEntity>>,
    chunk_embeddings: EmbeddingCache,
    query_cache: QueryCache,
}

spec fn corpus_of(t: Map<Seq<char>, RawChunk>) -> Map<Seq<char>, RawChunkView> {
    t.map_values(|c: RawChunk| c@)
}

spec fn documents_of(t: Map<Seq<char>, String>) -> Map<Seq<char>, Seq<char>> {
    t.map_values(|s: String| s@)
}

spec fn entities_of(t: Map<Seq<char>, Vec<RawEntity>>) -> Map<Seq<char>, Seq<RawEntity>> {
    t.map_values(|v: Vec<RawEntity>| v@)
}

impl View for CodeIndexer {
    type V = IndexView;

    closed spec fn view(&self) -> IndexView {
        IndexView {
            corpus: corpus_of(self.chunks@),
            documents: documents_of(self.documents@),
            entities: entities_of(self.entities@),
            embeddings: self.chunk_embeddings@,
            queries: self.query_cache@,
        }
    }
}

/// Whether a chunk of this id may be written: it replaces one, or there is room
/// for one more.
pub open spec fn admits_chunk(
    corpus: Map<Seq<char>, RawChunkView>,
    max_chunks: usize,
    id: Seq<char>,
) -> bool {
    corpus.contains_key(id) || corpus.dom().len() < max_chunks
}

/// The index after a chunk was added with its embedding: nothing changes where
/// there is no room for it.
pub open spec fn add_chunk_spec(
    v: IndexView,
    max_chunks: usize,
    embedding_capacity: nat,
    chunk: RawChunkView,
    embedding: Option<Seq<u32>>,
) -> IndexView {
    if !admits_chunk(v.corpus, max_chunks, chunk.id) {
        v
    } else {
        IndexView {
            corpus: v.corpus.insert(chunk.id, chunk),
            documents: v.documents.insert(chunk.id, lexical_text(chunk)),
            embeddings: match embedding {
                Some(e) => put_entry(v.embeddings, embedding_capacity, chunk.id, e),
                None => v.embeddings,
            },
            ..v
        }
    }
}

// ---------------------------------------------------------------------------
// Batches
// ---------------------------------------------------------------------------

/// The chunks, embeddings and entities of some parsed files.
pub struct ParsedBatch {
    pub chunks: Vec<RawChunk>,
    /// The embedding of each chunk, where it has one.
    pub embeddings: Vec<Option<Vec<u32>>>,
    pub entities_by_file: Vec<(String, Vec<RawEntity>)>,
}

/// The bits of each optional embedding.
pub open spec fn embedding_views(v: Seq<Option<Vec<u32>>>) -> Seq<Option<Seq<u32>>> {
    v.map_values(|o: Option<Vec<u32>>| match o {
        Some(e) => Some(e@),
        None => None::<Seq<u32>>,
    })
}

/// The file and the entities of each entry.
pub open spec fn entity_views(v: Seq<(String, Vec<RawEntity>)>) -> Seq<(Seq<char>, Seq<RawEntity>)> {
    v.map_values(|p: (String, Vec<RawEntity>)| (p.0@, p.1@))
}

/// The scored texts after those of `chunks` were written, in order.
pub open spec fn documents_with(
    documents: Map<Seq<char>, Seq<char>>,
    chunks: Seq<RawChunkView>,
) -> Map<Seq<char>, Seq<char>>
    decreases chunks.len(),
{
    if chunks.len() == 0 {
        documents
    } else {
        documents_with(documents, chunks.drop_last()).insert(
            chunks.last().id,
            lexical_text(chunks.last()),
        )
    }
}

/// The chunks after `chunks` were written, in order, as far as there was room.
pub open spec fn corpus_with(
    corpus: Map<Seq<char>, RawChunkView>,
    max_chunks: usize,
    chunks: Seq<RawChunkView>,
) -> Map<Seq<char>, RawChunkView>
    decreases chunks.len(),
{
    if chunks.len() == 0 {
        corpus
    } else {
        let before = corpus_with(corpus, max_chunks, chunks.drop_last());
        if admits_chunk(before, max_chunks, chunks.last().id) {
            before.insert(chunks.last().id, chunks.last())
        } else {
            before
        }
    }
}

/// How many of `chunks` were dropped for want of room.
pub open spec fn dropped_of(
    corpus: Map<Seq<char>, RawChunkView>,
    max_chunks: usize,
    chunks: Seq<RawChunkView>,
) -> nat
    decreases chunks.len(),
{
    if chunks.len() == 0 {
        0
    } else {
        let before = corpus_with(corpus, max_chunks, chunks.drop_last());
        dropped_of(corpus, max_chunks, chunks.drop_last()) + if admits_chunk(
            before,
            max_chunks,
            chunks.last().id,
        ) {
            0nat
        } else {
            1nat
        }
    }
}

/// The embeddings at hand after those of `chunks` were put, in order.
pub open spec fn embeddings_with(
    entries: Seq<(Seq<char>, Seq<u32>)>,
    capacity: nat,
    chunks: Seq<RawChunkView>,
    embeddings: Seq<Option<Seq<u32>>>,
) -> Seq<(Seq<char>, Seq<u32>)>
    decreases chunks.len(),
{
    if chunks.len() == 0 {
        entries
    } else {
        let n = chunks.len() - 1;
        let before = embeddings_with(entries, capacity, chunks.drop_last(), embeddings);
        if n < embeddings.len() {
            match embeddings[n] {
                Some(e) => put_entry(before, capacity, chunks.last().id, e),
                None => before,
            }
        } else {
            before
        }
    }
}

/// The entities after those of `files` were written, in order.
pub open spec fn entities_with(
    entities: Map<Seq<char>, Seq<RawEntity>>,
    files: Seq<(Seq<char>, Seq<RawEntity>)>,
) -> Map<Seq<char>, Seq<RawEntity>>
    decreases files.len(),
{
    if files.len() == 0 {
        entities
    } else {
        entities_with(entities, files.drop_last()).insert(files.last().0, files.last().1)
    }
}

/// The index after what a batch leaves of earlier versions of its files was
/// removed.
pub open spec fn batch_cleared(
    v: IndexView,
    chunks: Seq<RawChunkView>,
    files: Seq<(Seq<char>, Seq<RawEntity>)>,
) -> IndexView {
    cleared(v, stale(v.corpus, paths_of(files), ids_of(chunks)))
}

/// The index after a batch was written: the files of the batch are replaced.
pub open spec fn batch_indexed(
    v: IndexView,
    max_chunks: usize,
    capacity: nat,
    components: bool,
    chunks: Seq<RawChunkView>,
    embeddings: Seq<Option<Seq<u32>>>,
    files: Seq<(Seq<char>, Seq<RawEntity>)>,
) -> IndexView {
    let start = batch_cleared(v, chunks, files);
    IndexView {
        corpus: corpus_with(start.corpus, max_chunks, chunks),
        documents: documents_with(start.documents, chunks),
        embeddings: (if components {
            embeddings_with(start.embeddings, capacity, chunks, embeddings)
        } else {
            start.embeddings
        }),
        entities: entities_with(v.entities, files),
        queries: v.queries,
    }
}

/// The id and embedding of each chunk that has one: what the vector store is to
/// be told.
pub open spec fn vectors_of_spec(
    chunks: Seq<RawChunkView>,
    embeddings: Seq<Option<Seq<u32>>>,
) -> Seq<(Seq<char>, Seq<u32>)>
    decreases chunks.len(),
{
    if chunks.len() == 0 {
        Seq::empty()
    } else {
        let n = chunks.len() - 1;
        let before = vectors_of_spec(chunks.drop_last(), embeddings);
        if n < embeddings.len() {
            match embeddings[n] {
                Some(e) => before.push((chunks.last().id, e)),
                None => before,
            }
        } else {
            before
        }
    }
}

/// The id and the bits of each entry.
pub open spec fn vector_views(v: Seq<(String, Vec<u32>)>) -> Seq<(Seq<char>, Seq<u32>)> {
    v.map_values(|p: (String, Vec<u32>)| (p.0@, p.1@))
}

fn copy_bits(v: &Vec<u32>) -> (r: Vec<u32>)
    ensures
        r@ == v@,
{
    let mut r: Vec<u32> = Vec::new();
    for i in 0..v.len()
        invariant
            r@ == v@.take(i as int),
    {
        r.push(v[i]);
        assert(v@.take(i + 1) =~= v@.take(i as int).push(v@[i as int]));
    }
    assert(v@.take(v@.len() as int) =~= v@);
    r
}

impl ParsedBatch {
    /// What the vector store is to be told of this batch.
    pub fn vectors(&self) -> (items: Vec<(String, Vec<u32>)>)
        ensures
            vector_views(items@) == vectors_of_spec(
                chunk_views(self.chunks@),
                embedding_views(self.embeddings@),
            ),
    {
        let mut items: Vec<(String, Vec<u32>)> = Vec::new();
        let ghost chunks = chunk_views(self.chunks@);
        let ghost embeddings = embedding_views(self.embeddings@);
        assert(chunks.take(0) =~= Seq::empty());
        assert(vector_views(items@) =~= Seq::empty());
        for i in 0..self.chunks.len()
            invariant
                chunks == chunk_views(self.chunks@),
                embeddings == embedding_views(self.embeddings@),
                vector_views(items@) == vectors_of_spec(chunks.take(i as int), embeddings),
        {
            let ghost before = vector_views(items@);
            assert(chunks.take(i + 1).drop_last() =~= chunks.take(i as int));
            assert(chunks.take(i + 1).last() == self.chunks@[i as int]@);
            if i < self.embeddings.len() {
                assert(embeddings[i as int] == (match self.embeddings@[i as int] {
                    Some(e) => Some(e@),
                    None => None::<Seq<u32>>,
                }));
                if let Some(e) = &self.embeddings[i] {
                    items.push((self.chunks[i].id.clone(), copy_bits(e)));
                    assert(vector_views(items@) =~= before.push((self.chunks@[i as int].id@, e@)));
                }
            }
        }
        assert(chunks.take(chunks.len() as int) =~= chunks);
        items
    }
}

/// The texts to embed together: the contents of the chunks, in order, in batches
/// of which only the last may be smaller than the others.
pub open spec fn embed_batches_spec(contents: Seq<Seq<char>>) -> Seq<Seq<Seq<char>>>
    decreases contents.len(),
{
    if contents.len() == 0 {
        Seq::empty()
    } else if contents.len() <= EMBED_BATCH_SIZE {
        seq![contents]
    } else {
        seq![contents.take(EMBED_BATCH_SIZE as int)] + embed_batches_spec(
            contents.skip(EMBED_BATCH_SIZE as int),
        )
    }
}

/// The contents of some chunks.
pub open spec fn contents_of(chunks: Seq<RawChunk>) -> Seq<Seq<char>> {
    chunks.map_values(|c: RawChunk| c.content@)
}

/// The texts of each batch.
pub open spec fn batch_texts(v: Seq<Vec<String>>) -> Seq<Seq<Seq<char>>> {
    v.map_values(|b: Vec<String>| crate::text::texts(b@))
}

/// The texts to embed together.
pub fn embed_batches(chunks: &Vec<RawChunk>) -> (batches: Vec<Vec<String>>)
    ensures
        batch_texts(batches@) == embed_batches_spec(contents_of(chunks@)),
{
    let mut batches: Vec<Vec<String>> = Vec::new();
    let ghost all = contents_of(chunks@);
    let mut from: usize = 0;
    assert(all.skip(0) =~= all);
    assert(batch_texts(batches@) + embed_batches_spec(all) =~= embed_batches_spec(all));
    while from < chunks.len()
        invariant
            from <= chunks.len(),
            all == contents_of(chunks@),
            batch_texts(batches@) + embed_batches_spec(all.skip(from as int)) == embed_batches_spec(
                all,
            ),
        decreases chunks.len() - from,
    {
        let left: usize = chunks.len() - from;
        let count: usize = if left > EMBED_BATCH_SIZE {
            EMBED_BATCH_SIZE
        } else {
            left
        };
        let ghost rest = all.skip(from as int);
        let ghost before = batch_texts(batches@);
        let mut batch: Vec<String> = Vec::new();
        for i in 0..count
            invariant
                from + count <= chunks.len(),
                batch.len() == i,
                forall|j: int|
                    0 <= j < i ==> (#[trigger] batch@[j])@ == chunks@[from + j].content@,
        {
            batch.push(chunks[from + i].content.clone());
        }
        assert(crate::text::texts(batch@) =~= rest.take(count as int));
        let ghost t = crate::text::texts(batch@);
        batches.push(batch);
        assert(batch_texts(batches@) =~= before.push(t));
        assert(rest.skip(count as int) =~= all.skip(from + count));
        if left > EMBED_BATCH_SIZE {
            assert(before + (seq![t] + embed_batches_spec(all.skip(from + count))) =~= batch_texts(
                batches@,
            ) + embed_batches_spec(all.skip(from + count)));
        } else {
            assert(rest.take(count as int) =~= rest);
            assert(all.skip(from + count) =~= Seq::empty());
            assert(before + seq![t] =~= batch_texts(batches@) + embed_batches_spec(
                all.skip(from + count),
            ));
        }
        from = from + count;
    }
    assert(all.skip(from as int) =~= Seq::empty());
    assert(batch_texts(batches@) + embed_batches_spec(all.skip(from as int)) =~= batch_texts(
        batches@,
    ));
    batches
}

/// The message where an embedder hands back a wrong number of embeddings.
pub open spec fn embed_mismatch(got: nat, expected: nat) -> Seq<char> {
    "embed_batch returned "@ + decimal(got) + " vectors, expected "@ + decimal(expected)
}

/// Takes over the embeddings of one batch, in order, where there is one for each
/// of its texts; otherwise says what was handed back.
pub fn accept_embeddings(
    embeddings: &mut Vec<Option<Vec<u32>>>,
    expected: usize,
    batch: Vec<Vec<u32>>,
) -> (r: Result<(), String>)
    ensures
        match r {
            Ok(_) => batch@.len() == expected && embedding_views(final(embeddings)@)
                == embedding_views(old(embeddings)@) + batch@.map_values(
                |e: Vec<u32>| Some(e@),
            ),
            Err(message) => batch@.len() != expected && message@ == embed_mismatch(
                batch@.len(),
                expected as nat,
            ) && *final(embeddings) == *old(embeddings),
        },
{
    if batch.len() != expected {
        let got = decimal_text(batch.len() as u64);
        let want = decimal_text(expected as u64);
        let head = concat("embed_batch returned ", got.as_str());
        let middle = concat(head.as_str(), " vectors, expected ");
        let message = concat(middle.as_str(), want.as_str());
        assert(message@ =~= embed_mismatch(batch@.len(), expected as nat));
        return Err(message);
    }
    let ghost start = embedding_views(embeddings@);
    let ghost all = batch@.map_values(|e: Vec<u32>| Some(e@));
    for i in 0..batch.len()
        invariant
            all == batch@.map_values(|e: Vec<u32>| Some(e@)),
            embedding_views(embeddings@) == start + all.take(i as int),
    {
        let ghost before = embedding_views(embeddings@);
        embeddings.push(Some(copy_bits(&batch[i])));
        assert(embedding_views(embeddings@) =~= before.push(Some(batch@[i as int]@)));
        assert(start + all.take(i + 1) =~= before.push(all[i as int]));
    }
    assert(all.take(all.len() as int) =~= all);
    Ok(())
}

// ---------------------------------------------------------------------------
// The index
// ---------------------------------------------------------------------------

/// What the symbol graph is told of a chunk.
pub struct SymbolTuple {
    pub id: String,
    pub file: String,
    pub function_name: Option<String>,
    pub calls: Vec<String>,
    pub inherits_from: Vec<String>,
    pub chunk_type: ChunkType,
}

/// Whether the tuple is the one of the chunk.
pub open spec fn is_tuple_of(t: SymbolTuple, c: RawChunkView) -> bool {
    &&& t.id@ == c.id
    &&& t.file@ == c.file
    &&& crate::text::opt_text(t.function_name) == c.function_name
    &&& crate::text::texts(t.calls@) == c.calls
    &&& crate::text::texts(t.inherits_from@) == c.inherits_from
    &&& t.chunk_type == c.chunk_type
}

impl CodeIndexer {
    /// The name of the index.
    pub closed spec fn name(&self) -> Seq<char> {
        self.index_id@
    }

    /// The directory that the index is of.
    pub closed spec fn root(&self) -> Seq<char> {
        self.root_path@
    }

    /// Whether an embedder and a vector store are attached.
    pub closed spec fn components(&self) -> bool {
        self.components
    }

    /// How many chunks the index may hold.
    pub closed spec fn max_chunks(&self) -> usize {
        self.max_chunks
    }

    /// How many chunk embeddings are kept at hand.
    pub closed spec fn embedding_capacity(&self) -> nat {
        self.chunk_embeddings.capacity()
    }

    /// Whether name, root and settings of the two are the same.
    pub open spec fn same_settings(&self, other: &CodeIndexer) -> bool {
        &&& self.name() == other.name()
        &&& self.root() == other.root()
        &&& self.components() == other.components()
        &&& self.max_chunks() == other.max_chunks()
        &&& self.embedding_capacity() == other.embedding_capacity()
    }

    /// Whether each chunk is filed under its own id, the number of chunks keeps
    /// to the limit, the caches keep to theirs, and the lexical lane scores what
    /// each chunk holds.
    pub closed spec fn wf(&self) -> bool {
        &&& self.parts_wf()
        &&& in_sync(self@)
    }

    spec fn parts_wf(&self) -> bool {
        &&& self.chunks.wf()
        &&& self.documents.wf()
        &&& self.entities.wf()
        &&& self.chunk_embeddings.wf()
        &&& self.query_cache.wf()
        &&& self.query_cache.capacity() == QUERY_CACHE_CAPACITY
        &&& forall|k: Seq<char>| #[trigger] self.chunks@.contains_key(k) ==> self.chunks@[k]@.id == k
        &&& self.chunks@.dom().len() <= self.max_chunks
    }

    /// The ids of the chunks, in the order in which they are walked.
    pub closed spec fn ids(&self) -> Seq<Seq<char>> {
        self.chunks.keys()
    }

    /// The ids of the scored texts, in the order in which they are walked.
    pub closed spec fn document_ids(&self) -> Seq<Seq<char>> {
        self.documents.keys()
    }

    /// The files with entities, in the order in which they are walked.
    pub closed spec fn entity_files(&self) -> Seq<Seq<char>> {
        self.entities.keys()
    }

    /// An index never holds more chunks than it may, each under its own id and
    /// with the text that the lexical lane scores for it; the embeddings kept at
    /// hand never exceed their limit either.
    pub proof fn index_keeps_its_limits(&self)
        requires
            self.wf(),
        ensures
            self@.corpus.dom().finite(),
            self@.corpus.dom().len() <= self.max_chunks(),
            self@.embeddings.len() <= self.embedding_capacity(),
            self@.queries.len() <= QUERY_CACHE_CAPACITY,
            in_sync(self@),
            self.document_ids().no_duplicates(),
            self.document_ids().to_set() == self@.documents.dom(),
            self.document_ids().len() == self@.documents.dom().len(),
            forall|k: Seq<char>| #[trigger]
                self@.corpus.contains_key(k) ==> self@.corpus[k].id == k,
            self.ids().no_duplicates(),
            self.ids().to_set() == self@.corpus.dom(),
            self.ids().len() == self@.corpus.dom().len(),
            forall|i: int|
                0 <= i < self.ids().len() ==> self@.corpus.contains_key(#[trigger] self.ids()[i]),
            forall|k: Seq<char>| #[trigger]
                self@.corpus.contains_key(k) ==> exists|i: int|
                    0 <= i < self.ids().len() && #[trigger] self.ids()[i] == k,
    {
        self.chunks.keys_are_the_domain();
        self.documents.keys_are_the_domain();
        assert(self@.corpus.dom() =~= self.chunks@.dom());
        assert(self@.documents.dom() =~= self.documents@.dom());
        assert forall|k: Seq<char>| #[trigger] self@.corpus.contains_key(k) implies exists|i: int|
            0 <= i < self.ids().len() && #[trigger] self.ids()[i] == k by {
            assert(self.chunks@.contains_key(k));
            let i = choose|i: int|
                0 <= i < self.chunks.keys().len() && #[trigger] self.chunks.keys()[i] == k;
            assert(self.ids()[i] == k);
        }
    }

    /// The files with entities are walked once each.
    pub proof fn entity_files_are_walked(&self)
        requires
            self.wf(),
        ensures
            forall|i: int|
                0 <= i < self.entity_files().len() ==> self@.entities.contains_key(
                    #[trigger] self.entity_files()[i],
                ),
            forall|k: Seq<char>| #[trigger]
                self@.entities.contains_key(k) ==> exists|i: int|
                    0 <= i < self.entity_files().len() && #[trigger] self.entity_files()[i] == k,
    {
        self.entities.keys_are_the_domain();
        assert forall|k: Seq<char>| #[trigger] self@.entities.contains_key(k) implies exists|i: int|
            0 <= i < self.entity_files().len() && #[trigger] self.entity_files()[i] == k by {
            assert(self.entities@.contains_key(k));
            let i = choose|i: int|
                0 <= i < self.entities.keys().len() && #[trigger] self.entities.keys()[i] == k;
            assert(self.entity_files()[i] == k);
        }
    }

    /// An empty index with default limits and without embedder.
    pub fn new(index_id: &str, root_path: &str) -> (r: CodeIndexer)
        ensures
            r.wf(),
            r.name() == index_id@,
            r.root() == root_path@,
            !r.components(),
            r.max_chunks() == DEFAULT_MAX_CHUNKS_PER_INDEX,
            r.embedding_capacity() == DEFAULT_EMBEDDING_CACHE_CAP,
            r@ == empty_index(),
    {
        CodeIndexer::with_limits(
            index_id,
            root_path,
            DEFAULT_EMBEDDING_CACHE_CAP,
            DEFAULT_MAX_CHUNKS_PER_INDEX,
        )
    }

    /// An empty index with the given limits and without embedder.
    pub fn with_limits(
        index_id: &str,
        root_path: &str,
        embedding_cap: usize,
        max_chunks: usize,
    ) -> (r: CodeIndexer)
        requires
            0 < embedding_cap,
        ensures
            r.wf(),
            r.name() == index_id@,
            r.root() == root_path@,
            !r.components(),
            r.max_chunks() == max_chunks,
            r.embedding_capacity() == embedding_cap,
            r@ == empty_index(),
    {
        let r = CodeIndexer {
            index_id: index_id.to_owned(),
            root_path: root_path.to_owned(),
            components: false,
            max_chunks,
            chunks: Table::new(),
            documents: Table::new(),
            entities: Table::new(),
            chunk_embeddings: EmbeddingCache::new(embedding_cap),
            query_cache: QueryCache::new(QUERY_CACHE_CAPACITY),
        };
        proof {
            r.chunks.keys_are_the_domain();
            assert(r@ =~= empty_index());
        }
        r
    }

    /// An empty index with the limits that the settings stand for, without
    /// embedder.
    pub fn from_settings(
        index_id: &str,
        root_path: &str,
        embedding_cache: Option<&str>,
        max_chunks: Option<&str>,
    ) -> (r: CodeIndexer)
        ensures
            r.wf(),
            r.name() == index_id@,
            r.root() == root_path@,
            !r.components(),
            r.max_chunks() == cap_spec(opt_str(max_chunks), DEFAULT_MAX_CHUNKS_PER_INDEX),
            r.embedding_capacity() == cap_spec(
                opt_str(embedding_cache),
                DEFAULT_EMBEDDING_CACHE_CAP,
            ),
            r@ == empty_index(),
    {
        CodeIndexer::with_limits(
            index_id,
            root_path,
            embedding_cache_cap(embedding_cache),
            max_chunks_per_index(max_chunks),
        )
    }

    /// The index with an embedder and a vector store attached.
    pub fn with_components(self) -> (r: CodeIndexer)
        requires
            self.wf(),
        ensures
            r.wf(),
            r.components(),
            r.name() == self.name(),
            r.root() == self.root(),
            r.max_chunks() == self.max_chunks(),
            r.embedding_capacity() == self.embedding_capacity(),
            r@ == self@,
    {
        let mut r = self;
        r.components = true;
        r
    }

    /// Whether an embedder and a vector store are attached.
    pub fn has_components(&self) -> (r: bool)
        ensures
            r == self.components(),
    {
        self.components
    }

    /// The name of the index.
    pub fn index_id(&self) -> (s: &str)
        ensures
            s@ == self.name(),
    {
        self.index_id.as_str()
    }

    /// The directory that the index is of.
    pub fn root_path(&self) -> (s: &str)
        ensures
            s@ == self.root(),
    {
        self.root_path.as_str()
    }

    // -- Reading ------------------------------------------------------------

    /// The number of chunks.
    pub fn chunk_count(&self) -> (n: usize)
        requires
            self.wf(),
        ensures
            n == self@.corpus.dom().len(),
            n == self.ids().len(),
    {
        proof {
            self.index_keeps_its_limits();
        }
        self.chunks.len()
    }

    /// The chunk with the id.
    pub fn chunk(&self, id: &str) -> (r: Option<&RawChunk>)
        requires
            self.wf(),
        ensures
            match r {
                Some(c) => self@.corpus.contains_key(id@) && self@.corpus[id@] == c@,
                None => !self@.corpus.contains_key(id@),
            },
    {
        self.chunks.get(id)
    }

    /// The chunk at a position of the walk.
    pub fn chunk_at(&self, i: usize) -> (c: &RawChunk)
        requires
            self.wf(),
            i < self.ids().len(),
        ensures
            self@.corpus.contains_key(self.ids()[i as int]),
            c@ == self@.corpus[self.ids()[i as int]],
            c@.id == self.ids()[i as int],
    {
        self.chunks.value_at(i)
    }

    /// The number of files with entities.
    pub fn entity_file_count(&self) -> (n: usize)
        requires
            self.wf(),
        ensures
            n == self.entity_files().len(),
    {
        self.entities.len()
    }

    /// The file with entities at a position of the walk.
    pub fn entity_file_at(&self, i: usize) -> (file: &String)
        requires
            i < self.entity_files().len(),
        ensures
            file@ == self.entity_files()[i as int],
    {
        self.entities.key_at(i)
    }

    /// The entities of the file at a position of the walk.
    pub fn entities_at(&self, i: usize) -> (v: &Vec<RawEntity>)
        requires
            self.wf(),
            i < self.entity_files().len(),
        ensures
            self@.entities.contains_key(self.entity_files()[i as int]),
            v@ == self@.entities[self.entity_files()[i as int]],
    {
        self.entities.value_at(i)
    }

    /// The entities of a file.
    pub fn entities_for(&self, file_path: &str) -> (r: Option<&Vec<RawEntity>>)
        requires
            self.wf(),
        ensures
            match r {
                Some(v) => self@.entities.contains_key(file_path@) && self@.entities[file_path@]
                    == v@,
                None => !self@.entities.contains_key(file_path@),
            },
    {
        self.entities.get(file_path)
    }

    /// The embedding of a chunk, if it is at hand; nothing for a chunk that the
    /// index does not hold.
    pub fn get_embedding(&self, chunk_id: &str) -> (r: Option<Vec<u32>>)
        requires
            self.wf(),
        ensures
            match r {
                Some(e) => self@.corpus.contains_key(chunk_id@) && value_of(
                    self@.embeddings,
                    chunk_id@,
                ) == Some(e@),
                None => !self@.corpus.contains_key(chunk_id@) || value_of(
                    self@.embeddings,
                    chunk_id@,
                ) is None,
            },
    {
        if self.chunks.contains(chunk_id) {
            self.cached_embedding(chunk_id)
        } else {
            None
        }
    }

    /// The embedding that was last computed under an id, if it is at hand.
    pub(crate) fn cached_embedding(&self, id: &str) -> (r: Option<Vec<u32>>)
        ensures
            match r {
                Some(e) => value_of(self@.embeddings, id@) == Some(e@),
                None => value_of(self@.embeddings, id@) is None,
            },
    {
        self.chunk_embeddings.peek(id)
    }

    /// Whether no chunk embedding is at hand.
    pub fn no_embeddings(&self) -> (r: bool)
        ensures
            r == (self@.embeddings.len() == 0),
    {
        self.chunk_embeddings.is_empty()
    }

    /// The text that the lexical lane scores for a chunk.
    pub fn document(&self, id: &str) -> (r: Option<&String>)
        requires
            self.wf(),
        ensures
            match r {
                Some(s) => self@.documents.contains_key(id@) && self@.documents[id@] == s@,
                None => !self@.documents.contains_key(id@),
            },
    {
        self.documents.get(id)
    }

    /// The number of texts that the lexical lane scores.
    pub fn document_count(&self) -> (n: usize)
        requires
            self.wf(),
        ensures
            n == self@.documents.dom().len(),
            n == self.document_ids().len(),
    {
        proof {
            assert(self@.documents.dom() =~= self.documents@.dom());
        }
        self.documents.len()
    }

    /// The id and text at a position of the lexical lane.
    pub fn document_at(&self, i: usize) -> (r: (&String, &String))
        requires
            self.wf(),
            i < self.document_ids().len(),
        ensures
            r.0@ == self.document_ids()[i as int],
            self@.documents.contains_key(r.0@),
            self@.documents[r.0@] == r.1@,
    {
        (self.documents.key_at(i), self.documents.value_at(i))
    }

    /// What the symbol graph is to be built from: one tuple for each chunk.
    pub fn symbol_tuples(&self) -> (tuples: Vec<SymbolTuple>)
        requires
            self.wf(),
        ensures
            tuples@.len() == self.ids().len(),
            forall|i: int|
                0 <= i < tuples@.len() ==> is_tuple_of(
                    #[trigger] tuples@[i],
                    self@.corpus[self.ids()[i]],
                ),
    {
        let n: usize = self.chunks.len();
        let mut tuples: Vec<SymbolTuple> = Vec::new();
        for i in 0..n
            invariant
                self.wf(),
                n == self.ids().len(),
                tuples.len() == i,
                forall|j: int|
                    0 <= j < i ==> is_tuple_of(
                        #[trigger] tuples@[j],
                        self@.corpus[self.ids()[j]],
                    ),
        {
            let c = self.chunk_at(i);
            tuples.push(
                SymbolTuple {
                    id: c.id.clone(),
                    file: c.file.clone(),
                    function_name: crate::engine::chunk::copy_opt(&c.function_name),
                    calls: crate::text::copy_texts(&c.calls),
                    inherits_from: crate::text::copy_texts(&c.inherits_from),
                    chunk_type: c.chunk_type.same(),
                },
            );
        }
        tuples
    }

    // -- Writing ------------------------------------------------------------

    /// Whether a chunk of this id may be written.
    pub fn admits(&self, id: &str) -> (r: bool)
        requires
            self.wf(),
        ensures
            r == admits_chunk(self@.corpus, self.max_chunks(), id@),
    {
        self.has_room(id)
    }

    fn has_room(&self, id: &str) -> (r: bool)
        requires
            self.parts_wf(),
        ensures
            r == admits_chunk(self@.corpus, self.max_chunks(), id@),
    {
        assert(self@.corpus.dom() =~= self.chunks@.dom());
        self.chunks.contains(id) || self.chunks.len() < self.max_chunks
    }

    /// Adds a chunk, in place of one with its id, with its embedding where an
    /// embedder is attached. A new chunk that finds the index full is left out;
    /// says whether it was written.
    pub fn add_chunk(&mut self, chunk: RawChunk, embedding: Option<Vec<u32>>) -> (written: bool)
        requires
            old(self).wf(),
            embedding is Some ==> old(self).components(),
        ensures
            final(self).wf(),
            final(self).same_settings(old(self)),
            written == admits_chunk(old(self)@.corpus, old(self).max_chunks(), chunk@.id),
            final(self)@ == add_chunk_spec(
                old(self)@,
                old(self).max_chunks(),
                old(self).embedding_capacity(),
                chunk@,
                match embedding {
                    Some(e) => Some(e@),
                    None => None,
                },
            ),
    {
        let ghost start = *self;
        proof {
            self.index_keeps_its_limits();
        }
        if !self.admits(chunk.id.as_str()) {
            return false;
        }
        if let Some(e) = embedding {
            self.chunk_embeddings.put(chunk.id.clone(), e);
        }
        let text = bm25_doc_text(&chunk);
        self.documents.insert(chunk.id.clone(), text);
        let ghost c = chunk@;
        self.chunks.insert(chunk.id.clone(), chunk);
        proof {
            self.chunks.keys_are_the_domain();
            start.chunks.keys_are_the_domain();
            assert(self@.corpus =~= start@.corpus.insert(c.id, c));
            assert(self@.documents =~= start@.documents.insert(c.id, lexical_text(c)));
        }
        true
    }

    fn write_documents(&mut self, chunks: &Vec<RawChunk>)
        requires
            old(self).parts_wf(),
        ensures
            final(self).parts_wf(),
            final(self).same_settings(old(self)),
            final(self)@ == (IndexView {
                documents: documents_with(old(self)@.documents, chunk_views(chunks@)),
                ..old(self)@
            }),
    {
        let ghost start = *self;
        let ghost all = chunk_views(chunks@);
        assert(all.take(0) =~= Seq::empty());
        for i in 0..chunks.len()
            invariant
                self.parts_wf(),
                self.same_settings(&start),
                all == chunk_views(chunks@),
                self@ == (IndexView {
                    documents: documents_with(start@.documents, all.take(i as int)),
                    ..start@
                }),
        {
            let ghost before = *self;
            assert(all.take(i + 1).drop_last() =~= all.take(i as int));
            assert(all.take(i + 1).last() == chunks@[i as int]@);
            let text = bm25_doc_text(&chunks[i]);
            self.documents.insert(chunks[i].id.clone(), text);
            assert(self@.documents =~= before@.documents.insert(
                chunks@[i as int].id@,
                lexical_text(chunks@[i as int]@),
            ));
        }
        assert(all.take(all.len() as int) =~= all);
    }

    fn write_embeddings(&mut self, chunks: &Vec<RawChunk>, embeddings: &Vec<Option<Vec<u32>>>)
        requires
            old(self).parts_wf(),
        ensures
            final(self).parts_wf(),
            final(self).same_settings(old(self)),
            final(self)@ == (IndexView {
                embeddings: embeddings_with(
                    old(self)@.embeddings,
                    old(self).embedding_capacity(),
                    chunk_views(chunks@),
                    embedding_views(embeddings@),
                ),
                ..old(self)@
            }),
    {
        let ghost start = *self;
        let ghost all = chunk_views(chunks@);
        let ghost bits = embedding_views(embeddings@);
        assert(all.take(0) =~= Seq::empty());
        for i in 0..chunks.len()
            invariant
                self.parts_wf(),
                self.same_settings(&start),
                all == chunk_views(chunks@),
                bits == embedding_views(embeddings@),
                self@ == (IndexView {
                    embeddings: embeddings_with(
                        start@.embeddings,
                        start.embedding_capacity(),
                        all.take(i as int),
                        bits,
                    ),
                    ..start@
                }),
        {
            assert(all.take(i + 1).drop_last() =~= all.take(i as int));
            assert(all.take(i + 1).last() == chunks@[i as int]@);
            if i < embeddings.len() {
                assert(bits[i as int] == (match embeddings@[i as int] {
                    Some(e) => Some(e@),
                    None => None::<Seq<u32>>,
                }));
                if let Some(e) = &embeddings[i] {
                    self.chunk_embeddings.put(chunks[i].id.clone(), copy_bits(e));
                }
            }
        }
        assert(all.take(all.len() as int) =~= all);
    }

    fn write_corpus(&mut self, chunks: Vec<RawChunk>) -> (dropped: usize)
        requires
            old(self).parts_wf(),
        ensures
            final(self).parts_wf(),
            final(self).same_settings(old(self)),
            final(self)@ == (IndexView {
                corpus: corpus_with(
                    old(self)@.corpus,
                    old(self).max_chunks(),
                    chunk_views(chunks@),
                ),
                ..old(self)@
            }),
            dropped == dropped_of(old(self)@.corpus, old(self).max_chunks(), chunk_views(chunks@)),
    {
        let ghost start = *self;
        let ghost all = chunk_views(chunks@);
        let mut dropped: usize = 0;
        let total: usize = chunks.len();
        assert(all.take(0) =~= Seq::empty());
        for chunk in it: chunks
            invariant
                self.parts_wf(),
                self.same_settings(&start),
                it.seq() == chunks@,
                all == chunk_views(chunks@),
                dropped <= it.index(),
                total == chunks@.len(),
                it.index() <= total,
                self@ == (IndexView {
                    corpus: corpus_with(
                        start@.corpus,
                        start.max_chunks(),
                        all.take(it.index() as int),
                    ),
                    ..start@
                }),
                dropped == dropped_of(
                    start@.corpus,
                    start.max_chunks(),
                    all.take(it.index() as int),
                ),
        {
            let ghost before = *self;
            let ghost i = it.index();
            assert(all.take(i + 1).drop_last() =~= all.take(i as int));
            assert(all.take(i + 1).last() == chunk@);
            if self.has_room(chunk.id.as_str()) {
                let ghost c = chunk@;
                self.chunks.insert(chunk.id.clone(), chunk);
                proof {
                    self.chunks.keys_are_the_domain();
                    before.chunks.keys_are_the_domain();
                    assert(before@.corpus.dom() =~= before.chunks@.dom());
                    assert(self@.corpus =~= before@.corpus.insert(c.id, c));
                }
            } else {
                dropped = dropped + 1;
            }
        }
        assert(all.take(all.len() as int) =~= all);
        dropped
    }

    fn write_entities(&mut self, entities_by_file: Vec<(String, Vec<RawEntity>)>)
        requires
            old(self).parts_wf(),
        ensures
            final(self).parts_wf(),
            final(self).same_settings(old(self)),
            final(self)@ == (IndexView {
                entities: entities_with(old(self)@.entities, entity_views(entities_by_file@)),
                ..old(self)@
            }),
    {
        let ghost start = *self;
        let ghost all = entity_views(entities_by_file@);
        assert(all.take(0) =~= Seq::empty());
        for entry in it: entities_by_file
            invariant
                self.parts_wf(),
                self.same_settings(&start),
                it.seq() == entities_by_file@,
                all == entity_views(entities_by_file@),
                self@ == (IndexView {
                    entities: entities_with(start@.entities, all.take(it.index() as int)),
                    ..start@
                }),
        {
            let ghost before = *self;
            let ghost i = it.index();
            assert(all.take(i + 1).drop_last() =~= all.take(i as int));
            assert(all.take(i + 1).last() == (entry.0@, entry.1@));
            let (path, ents) = entry;
            let ghost p = path@;
            let ghost e = ents@;
            self.entities.insert(path, ents);
            assert(self@.entities =~= before@.entities.insert(p, e));
        }
        assert(all.take(all.len() as int) =~= all);
    }

    /// Sets the entities of a file, in place of any earlier ones.
    pub fn set_entities(&mut self, file_path: String, entities: Vec<RawEntity>)
        requires
            old(self).wf(),
        ensures
            final(self).wf(),
            final(self).same_settings(old(self)),
            final(self)@ == (IndexView {
                entities: old(self)@.entities.insert(file_path@, entities@),
                ..old(self)@
            }),
    {
        let ghost start = *self;
        let ghost p = file_path@;
        let ghost e = entities@;
        self.entities.insert(file_path, entities);
        assert(self@.entities =~= start@.entities.insert(p, e));
        proof {
            lemma_in_sync_by_parts(start@, self@);
        }
    }

    /// Writes a parsed batch in place of earlier versions of its files: the texts
    /// for the lexical lane, the embeddings at hand where an embedder is attached,
    /// the chunks as far as there is room, and the entities of each file. Hands
    /// back how many chunks of the batch were written and how many found no room.
    pub fn commit_parsed_batch(&mut self, parsed: ParsedBatch) -> (r: (usize, usize))
        requires
            old(self).wf(),
        ensures
            final(self).wf(),
            final(self).same_settings(old(self)),
            r.1 == dropped_of(
                batch_cleared(
                    old(self)@,
                    chunk_views(parsed.chunks@),
                    entity_views(parsed.entities_by_file@),
                ).corpus,
                old(self).max_chunks(),
                chunk_views(parsed.chunks@),
            ),
            r.0 + r.1 == parsed.chunks@.len(),
            final(self)@ == batch_indexed(
                old(self)@,
                old(self).max_chunks(),
                old(self).embedding_capacity(),
                old(self).components(),
                chunk_views(parsed.chunks@),
                embedding_views(parsed.embeddings@),
                entity_views(parsed.entities_by_file@),
            ),
    {
        let ghost written = chunk_views(parsed.chunks@);
        let files = file_names(&parsed.entities_by_file);
        let fresh = chunk_ids(&parsed.chunks);
        self.remove_stale(&files, &fresh);
        let ghost start = self@;
        let ghost synced = IndexView {
            corpus: corpus_with(start.corpus, self.max_chunks, written),
            documents: documents_with(start.documents, written),
            ..start
        };
        proof {
            lemma_commit_in_sync(start, self.max_chunks, written);
        }
        let ParsedBatch { chunks, embeddings, entities_by_file } = parsed;
        let total: usize = chunks.len();
        proof {
            lemma_dropped_are_of_the_batch(start.corpus, self.max_chunks, written);
        }
        self.write_documents(&chunks);
        if self.components {
            self.write_embeddings(&chunks, &embeddings);
        }
        let dropped: usize = self.write_corpus(chunks);
        self.write_entities(entities_by_file);
        proof {
            lemma_in_sync_by_parts(synced, self@);
        }
        (total - dropped, dropped)
    }

    // -- Removing -----------------------------------------------------------

    /// Removes a chunk from everything the index holds.
    pub fn remove_chunk(&mut self, chunk_id: &str)
        requires
            old(self).wf(),
        ensures
            final(self).wf(),
            final(self).same_settings(old(self)),
            final(self)@ == remove_chunk_spec(old(self)@, chunk_id@),
    {
        let ghost start = *self;
        self.chunks.remove(chunk_id);
        self.chunk_embeddings.pop(chunk_id);
        self.documents.remove(chunk_id);
        proof {
            start.chunks.keys_are_the_domain();
            assert(self@.corpus =~= start@.corpus.remove(chunk_id@));
            assert(self@.documents =~= start@.documents.remove(chunk_id@));
        }
    }

    fn forget(&mut self, ids: &Vec<String>)
        requires
            old(self).wf(),
        ensures
            final(self).wf(),
            final(self).same_settings(old(self)),
            final(self)@ == cleared(old(self)@, crate::text::texts(ids@).to_set()),
    {
        let ghost start = *self;
        let ghost all = crate::text::texts(ids@);
        proof {
            assert(all.take(0).to_set() =~= Set::empty());
            lemma_clear_none(start@);
        }
        for i in 0..ids.len()
            invariant
                self.wf(),
                self.same_settings(&start),
                all == crate::text::texts(ids@),
                self@ == cleared(start@, all.take(i as int).to_set()),
        {
            proof {
                let head = all.take(i as int);
                let next = all.take(i + 1);
                assert(next =~= head.push(all[i as int]));
                assert(next.to_set() =~= head.to_set().insert(all[i as int])) by {
                    assert forall|k: Seq<char>| next.contains(k) == (head.contains(k) || k
                        == all[i as int]) by {
                        if head.contains(k) {
                            let p = choose|p: int| 0 <= p < head.len() && head[p] == k;
                            assert(next[p] == k);
                        }
                        assert(next[i as int] == all[i as int]);
                        if next.contains(k) {
                            let p = choose|p: int| 0 <= p < next.len() && next[p] == k;
                            if p < i {
                                assert(head[p] == k);
                            }
                        }
                    }
                }
                lemma_clear_one_more(start@, head.to_set(), all[i as int]);
            }
            self.remove_chunk(ids[i].as_str());
        }
        assert(all.take(all.len() as int) =~= all);
    }

    /// Removes a file: every chunk of it, and its entities. Hands back the ids of
    /// the chunks that are gone, each once.
    pub fn remove_file(&mut self, file_path: &str) -> (ids: Vec<String>)
        requires
            old(self).wf(),
        ensures
            final(self).wf(),
            final(self).same_settings(old(self)),
            is_chunks_of_file(old(self)@.corpus, file_path@, ids@),
            final(self)@ == file_removed(old(self)@, file_path@),
    {
        let ids = self.chunks_of_file(file_path);
        let ghost start = *self;
        self.forget(&ids);
        let ghost before = *self;
        self.entities.remove(file_path);
        proof {
            assert(self@.entities =~= before@.entities.remove(file_path@));
            lemma_in_sync_by_parts(before@, self@);
            lemma_listed_chunks(start@.corpus, file_path@, ids@);
        }
        ids
    }

    /// The ids of the chunks of some files that are not among the fresh ones: what
    /// is left of earlier versions of the files.
    fn stale_chunks(&self, files: &Table<bool>, fresh: &Table<bool>) -> (ids: Vec<String>)
        requires
            self.wf(),
            files.wf(),
            fresh.wf(),
        ensures
            crate::text::texts(ids@).to_set() == stale(
                self@.corpus,
                files@.dom(),
                fresh@.dom(),
            ),
    {
        let n: usize = self.chunk_count();
        let mut ids: Vec<String> = Vec::new();
        let ghost gone = stale(self@.corpus, files@.dom(), fresh@.dom());
        proof {
            self.index_keeps_its_limits();
        }
        for i in 0..n
            invariant
                self.wf(),
                files.wf(),
                fresh.wf(),
                n == self.ids().len(),
                gone == stale(self@.corpus, files@.dom(), fresh@.dom()),
                forall|j: int| 0 <= j < ids.len() ==> gone.contains((#[trigger] ids@[j])@),
                forall|p: int|
                    0 <= p < i && gone.contains(#[trigger] self.ids()[p])
                        ==> crate::text::has_text(ids@, self.ids()[p]),
        {
            let ghost before = ids@;
            let c = self.chunk_at(i);
            if files.contains(c.file.as_str()) && !fresh.contains(c.id.as_str()) {
                ids.push(c.id.clone());
                assert(ids@[before.len() as int]@ == self.ids()[i as int]);
            }
            proof {
                assert forall|j: int| 0 <= j < ids.len() implies gone.contains(
                    (#[trigger] ids@[j])@,
                ) by {
                    if j < before.len() {
                        assert(gone.contains(before[j]@));
                    }
                }
                assert forall|p: int|
                    0 <= p < i + 1 && gone.contains(
                        #[trigger] self.ids()[p],
                    ) implies crate::text::has_text(ids@, self.ids()[p]) by {
                    if p < i {
                        assert(crate::text::has_text(before, self.ids()[p]));
                        let j = choose|j: int|
                            0 <= j < before.len() && (#[trigger] before[j])@ == self.ids()[p];
                        assert(ids@[j]@ == self.ids()[p]);
                    }
                }
            }
        }
        proof {
            self.index_keeps_its_limits();
            let all = crate::text::texts(ids@);
            assert forall|k: Seq<char>| all.contains(k) == gone.contains(k) by {
                if all.contains(k) {
                    let j = choose|j: int| 0 <= j < all.len() && all[j] == k;
                    assert(ids@[j]@ == k);
                }
                if gone.contains(k) {
                    let p = choose|p: int|
                        0 <= p < self.ids().len() && #[trigger] self.ids()[p] == k;
                    assert(crate::text::has_text(ids@, self.ids()[p]));
                    let j = choose|j: int| 0 <= j < ids@.len() && (#[trigger] ids@[j])@ == k;
                    assert(all[j] == k);
                }
            }
            assert(all.to_set() =~= gone);
        }
        ids
    }

    /// Removes what is left of earlier versions of some files: their chunks that
    /// are not among the fresh ones. Hands back the ids of those chunks.
    pub fn remove_stale(&mut self, files: &Vec<String>, fresh: &Vec<String>) -> (ids: Vec<String>)
        requires
            old(self).wf(),
        ensures
            final(self).wf(),
            final(self).same_settings(old(self)),
            crate::text::texts(ids@).to_set() == stale(
                old(self)@.corpus,
                crate::text::texts(files@).to_set(),
                crate::text::texts(fresh@).to_set(),
            ),
            final(self)@ == cleared(
                old(self)@,
                stale(
                    old(self)@.corpus,
                    crate::text::texts(files@).to_set(),
                    crate::text::texts(fresh@).to_set(),
                ),
            ),
    {
        let files = text_set(files);
        let fresh = text_set(fresh);
        let ids = self.stale_chunks(&files, &fresh);
        self.forget(&ids);
        ids
    }

    fn chunks_of_file(&self, file_path: &str) -> (ids: Vec<String>)
        requires
            self.wf(),
        ensures
            is_chunks_of_file(self@.corpus, file_path@, ids@),
    {
        let n: usize = self.chunk_count();
        let mut ids: Vec<String> = Vec::new();
        proof {
            self.index_keeps_its_limits();
        }
        for i in 0..n
            invariant
                self.wf(),
                n == self.ids().len(),
                self.ids().no_duplicates(),
                forall|j: int|
                    0 <= j < ids.len() ==> self@.corpus.contains_key((#[trigger] ids@[j])@)
                        && self@.corpus[ids@[j]@].file == file_path@,
                forall|j: int|
                    0 <= j < ids.len() ==> walked_before(self.ids(), i as int, (#[trigger] ids@[j])@),
                forall|a: int, b: int|
                    0 <= a < b < ids.len() ==> (#[trigger] ids@[a])@ != (#[trigger] ids@[b])@,
                forall|p: int|
                    0 <= p < i && self@.corpus[#[trigger] self.ids()[p]].file == file_path@
                        ==> crate::text::has_text(ids@, self.ids()[p]),
        {
            let ghost before = ids@;
            let c = self.chunk_at(i);
            if same_text(c.file.as_str(), file_path) {
                ids.push(c.id.clone());
                assert(ids@[before.len() as int]@ == self.ids()[i as int]);
            }
            proof {
                assert forall|j: int| 0 <= j < ids.len() implies walked_before(
                    self.ids(),
                    i + 1,
                    (#[trigger] ids@[j])@,
                ) by {
                    if j < before.len() {
                        assert(walked_before(self.ids(), i as int, before[j]@));
                        let p = choose|p: int|
                            0 <= p < i && #[trigger] self.ids()[p] == before[j]@;
                        assert(self.ids()[p] == ids@[j]@);
                    } else {
                        assert(self.ids()[i as int] == ids@[j]@);
                    }
                }
                assert forall|a: int, b: int| 0 <= a < b < ids.len() implies (#[trigger] ids@[a])@
                    != (#[trigger] ids@[b])@ by {
                    if b == before.len() {
                        assert(walked_before(self.ids(), i as int, before[a]@));
                        let p = choose|p: int|
                            0 <= p < i && #[trigger] self.ids()[p] == before[a]@;
                        assert(self.ids()[p] != self.ids()[i as int]);
                    }
                }
                assert forall|p: int|
                    0 <= p < i + 1 && self@.corpus[#[trigger] self.ids()[p]].file
                        == file_path@ implies crate::text::has_text(ids@, self.ids()[p]) by {
                    if p < i {
                        assert(crate::text::has_text(before, self.ids()[p]));
                        let j = choose|j: int|
                            0 <= j < before.len() && (#[trigger] before[j])@ == self.ids()[p];
                        assert(ids@[j]@ == self.ids()[p]);
                    }
                }
            }
        }
        proof {
            self.index_keeps_its_limits();
            assert forall|k: Seq<char>| #[trigger]
                self@.corpus.contains_key(k) && self@.corpus[k].file
                    == file_path@ implies crate::text::has_text(ids@, k) by {
                let p = choose|p: int| 0 <= p < self.ids().len() && #[trigger] self.ids()[p] == k;
                assert(crate::text::has_text(ids@, self.ids()[p]));
            }
        }
        ids
    }

    // -- Query embeddings ---------------------------------------------------

    /// The embedding of a query, if it is at hand; it then counts as just used.
    pub fn cached_query(&mut self, query: &str) -> (r: Option<Vec<u32>>)
        requires
            old(self).wf(),
        ensures
            final(self).wf(),
            final(self).same_settings(old(self)),
            final(self)@ == (IndexView {
                queries: touch_entry(old(self)@.queries, query_hash(query@)),
                ..old(self)@
            }),
            match r {
                Some(e) => value_of(old(self)@.queries, query_hash(query@)) == Some(e@),
                None => value_of(old(self)@.queries, query_hash(query@)) is None,
            },
    {
        let key: u64 = hash_query(query);
        self.query_cache.get(key)
    }

    /// Keeps the embedding of a query at hand.
    pub fn remember_query(&mut self, query: &str, embedding: Vec<u32>)
        requires
            old(self).wf(),
        ensures
            final(self).wf(),
            final(self).same_settings(old(self)),
            final(self)@ == (IndexView {
                queries: put_entry(
                    old(self)@.queries,
                    QUERY_CACHE_CAPACITY as nat,
                    query_hash(query@),
                    embedding@,
                ),
                ..old(self)@
            }),
    {
        let key: u64 = hash_query(query);
        let ghost start = self@;
        self.query_cache.put(key, embedding);
        proof {
            lemma_in_sync_by_parts(start, self@);
        }
    }
}

fn file_names(files: &Vec<(String, Vec<RawEntity>)>) -> (names: Vec<String>)
    ensures
        crate::text::texts(names@) == entity_views(files@).map_values(
            |f: (Seq<char>, Seq<RawEntity>)| f.0,
        ),
{
    let mut names: Vec<String> = Vec::new();
    for i in 0..files.len()
        invariant
            names.len() == i,
            forall|j: int| 0 <= j < i ==> (#[trigger] names@[j])@ == files@[j].0@,
    {
        names.push(files[i].0.clone());
    }
    assert(crate::text::texts(names@) =~= entity_views(files@).map_values(
        |f: (Seq<char>, Seq<RawEntity>)| f.0,
    ));
    names
}

pub(crate) fn chunk_ids(chunks: &Vec<RawChunk>) -> (ids: Vec<String>)
    ensures
        crate::text::texts(ids@) == chunk_views(chunks@).map_values(|c: RawChunkView| c.id),
{
    let mut ids: Vec<String> = Vec::new();
    for i in 0..chunks.len()
        invariant
            ids.len() == i,
            forall|j: int| 0 <= j < i ==> (#[trigger] ids@[j])@ == chunks@[j].id@,
    {
        ids.push(chunks[i].id.clone());
    }
    assert(crate::text::texts(ids@) =~= chunk_views(chunks@).map_values(
        |c: RawChunkView| c.id,
    ));
    ids
}

proof fn lemma_dropped_are_of_the_batch(
    corpus: Map<Seq<char>, RawChunkView>,
    max_chunks: usize,
    chunks: Seq<RawChunkView>,
)
    ensures
        dropped_of(corpus, max_chunks, chunks) <= chunks.len(),
    decreases chunks.len(),
{
    if chunks.len() > 0 {
        lemma_dropped_are_of_the_batch(corpus, max_chunks, chunks.drop_last());
    }
}

/// Whether the lexical lane scores, for each chunk, what the chunk holds.
pub open spec fn in_sync(v: IndexView) -> bool {
    forall|k: Seq<char>| #[trigger]
        v.corpus.contains_key(k) ==> v.documents.contains_key(k) && v.documents[k] == lexical_text(
            v.corpus[k],
        )
}

proof fn lemma_in_sync_by_parts(a: IndexView, b: IndexView)
    requires
        in_sync(a),
        a.corpus == b.corpus,
        a.documents == b.documents,
    ensures
        in_sync(b),
{
}

proof fn lemma_commit_in_sync(v: IndexView, max_chunks: usize, chunks: Seq<RawChunkView>)
    requires
        in_sync(v),
    ensures
        in_sync(
            IndexView {
                corpus: corpus_with(v.corpus, max_chunks, chunks),
                documents: documents_with(v.documents, chunks),
                ..v
            },
        ),
    decreases chunks.len(),
{
    if chunks.len() > 0 {
        let head = chunks.drop_last();
        lemma_commit_in_sync(v, max_chunks, head);
        let before = IndexView {
            corpus: corpus_with(v.corpus, max_chunks, head),
            documents: documents_with(v.documents, head),
            ..v
        };
        let after = IndexView {
            corpus: corpus_with(v.corpus, max_chunks, chunks),
            documents: documents_with(v.documents, chunks),
            ..v
        };
        assert forall|k: Seq<char>| #[trigger]
            after.corpus.contains_key(k) implies after.documents.contains_key(k)
            && after.documents[k] == lexical_text(after.corpus[k]) by {
            if k != chunks.last().id {
                assert(before.corpus.contains_key(k));
            }
        }
    }
}

/// Whether `k` is among the first `n` of the ids.
pub open spec fn walked_before(ids: Seq<Seq<char>>, n: int, k: Seq<char>) -> bool {
    exists|p: int| 0 <= p < n && #[trigger] ids[p] == k
}

/// An index that holds nothing.
pub open spec fn empty_index() -> IndexView {
    IndexView {
        corpus: Map::empty(),
        documents: Map::empty(),
        entities: Map::empty(),
        embeddings: Seq::empty(),
        queries: Seq::empty(),
    }
}

/// The index without one chunk.
pub open spec fn remove_chunk_spec(v: IndexView, id: Seq<char>) -> IndexView {
    IndexView {
        corpus: v.corpus.remove(id),
        documents: v.documents.remove(id),
        embeddings: without(v.embeddings, id),
        ..v
    }
}

/// The index without the chunks that are `gone`.
pub open spec fn cleared(v: IndexView, gone: Set<Seq<char>>) -> IndexView {
    IndexView {
        corpus: v.corpus.remove_keys(gone),
        documents: v.documents.remove_keys(gone),
        embeddings: without_all(v.embeddings, gone),
        ..v
    }
}

/// The ids of the chunks of a file.
pub open spec fn chunks_of(corpus: Map<Seq<char>, RawChunkView>, file: Seq<char>) -> Set<Seq<char>> {
    Set::new(|k: Seq<char>| corpus.contains_key(k) && corpus[k].file == file)
}

/// The index without a file.
pub open spec fn file_removed(v: IndexView, file: Seq<char>) -> IndexView {
    IndexView {
        entities: v.entities.remove(file),
        ..cleared(v, chunks_of(v.corpus, file))
    }
}

/// The ids of the chunks of some files that are not among the fresh ones.
pub open spec fn stale(
    corpus: Map<Seq<char>, RawChunkView>,
    files: Set<Seq<char>>,
    fresh: Set<Seq<char>>,
) -> Set<Seq<char>> {
    Set::new(
        |k: Seq<char>|
            corpus.contains_key(k) && files.contains(corpus[k].file) && !fresh.contains(k),
    )
}

/// The ids of some chunks.
pub open spec fn ids_of(chunks: Seq<RawChunkView>) -> Set<Seq<char>> {
    chunks.map_values(|c: RawChunkView| c.id).to_set()
}

/// The paths of some files.
pub open spec fn paths_of(files: Seq<(Seq<char>, Seq<RawEntity>)>) -> Set<Seq<char>> {
    files.map_values(|f: (Seq<char>, Seq<RawEntity>)| f.0).to_set()
}

pub(crate) proof fn lemma_clear_none(v: IndexView)
    ensures
        cleared(v, Set::empty()) == v,
{
    lemma_without_none(v.embeddings);
    assert(cleared(v, Set::empty()) =~= v);
}

proof fn lemma_clear_one_more(v: IndexView, gone: Set<Seq<char>>, id: Seq<char>)
    ensures
        remove_chunk_spec(cleared(v, gone), id) == cleared(v, gone.insert(id)),
{
    lemma_without_one_more(v.embeddings, gone, id);
    assert(remove_chunk_spec(cleared(v, gone), id) =~= cleared(v, gone.insert(id)));
}

proof fn lemma_listed_chunks(
    corpus: Map<Seq<char>, RawChunkView>,
    file: Seq<char>,
    ids: Seq<String>,
)
    requires
        is_chunks_of_file(corpus, file, ids),
    ensures
        crate::text::texts(ids).to_set() == chunks_of(corpus, file),
{
    let all = crate::text::texts(ids);
    assert forall|k: Seq<char>| all.contains(k) == chunks_of(corpus, file).contains(k) by {
        if all.contains(k) {
            let j = choose|j: int| 0 <= j < all.len() && all[j] == k;
            assert(ids[j]@ == k);
        }
        if chunks_of(corpus, file).contains(k) {
            assert(crate::text::has_text(ids, k));
            let j = choose|j: int| 0 <= j < ids.len() && (#[trigger] ids[j])@ == k;
            assert(all[j] == k);
        }
    }
    assert(all.to_set() =~= chunks_of(corpus, file));
}

fn text_set(list: &Vec<String>) -> (set: Table<bool>)
    ensures
        set.wf(),
        set@.dom() == crate::text::texts(list@).to_set(),
{
    let mut set: Table<bool> = Table::new();
    let ghost all = crate::text::texts(list@);
    assert(set@.dom() =~= all.take(0).to_set());
    for i in 0..list.len()
        invariant
            set.wf(),
            all == crate::text::texts(list@),
            set@.dom() == all.take(i as int).to_set(),
    {
        let ghost before = set@;
        set.insert(list[i].clone(), true);
        proof {
            let head = all.take(i as int);
            let next = all.take(i + 1);
            assert forall|k: Seq<char>| next.contains(k) == (head.contains(k) || k
                == all[i as int]) by {
                if head.contains(k) {
                    let p = choose|p: int| 0 <= p < head.len() && head[p] == k;
                    assert(next[p] == k);
                }
                assert(next[i as int] == all[i as int]);
                if next.contains(k) {
                    let p = choose|p: int| 0 <= p < next.len() && next[p] == k;
                    if p < i {
                        assert(head[p] == k);
                    }
                }
            }
            assert(set@.dom() =~= next.to_set());
        }
    }
    assert(all.take(list.len() as int) =~= all);
    set
}

/// Whether `ids` are the ids of the chunks of a file, each once.
pub open spec fn is_chunks_of_file(
    corpus: Map<Seq<char>, RawChunkView>,
    file: Seq<char>,
    ids: Seq<String>,
) -> bool {
    &&& forall|j: int|
        0 <= j < ids.len() ==> corpus.contains_key((#[trigger] ids[j])@) && corpus[ids[j]@].file
            == file
    &&& forall|a: int, b: int| 0 <= a < b < ids.len() ==> (#[trigger] ids[a])@ != (#[trigger] ids[b])@
    &&& forall|k: Seq<char>| #[trigger]
        corpus.contains_key(k) && corpus[k].file == file ==> crate::text::has_text(ids, k)
}

// ---------------------------------------------------------------------------
// Laws
// ---------------------------------------------------------------------------

/// A chunk that was written is found under its id, the lexical lane scores it,
/// and no other chunk is touched.
pub proof fn written_chunk_is_found(
    v: IndexView,
    max_chunks: usize,
    capacity: nat,
    chunk: RawChunkView,
    embedding: Option<Seq<u32>>,
    other: Seq<char>,
)
    requires
        admits_chunk(v.corpus, max_chunks, chunk.id),
        other != chunk.id,
    ensures
        ({
            let w = add_chunk_spec(v, max_chunks, capacity, chunk, embedding);
            &&& w.corpus.contains_key(chunk.id) && w.corpus[chunk.id] == chunk
            &&& w.documents.contains_key(chunk.id) && w.documents[chunk.id] == lexical_text(chunk)
            &&& w.corpus.contains_key(other) == v.corpus.contains_key(other)
            &&& v.corpus.contains_key(other) ==> w.corpus[other] == v.corpus[other]
            &&& w.entities == v.entities
            &&& embedding matches Some(e) ==> value_of(w.embeddings, chunk.id) == Some(e)
        }),
{
    if let Some(e) = embedding {
        let w = put_entry(v.embeddings, capacity, chunk.id, e);
        assert(w[0] == (chunk.id, e));
    }
}

/// A full index still takes a new version of a chunk that it holds, and leaves
/// out every other one.
pub proof fn full_index_takes_only_new_versions(
    v: IndexView,
    max_chunks: usize,
    capacity: nat,
    chunk: RawChunkView,
    embedding: Option<Seq<u32>>,
)
    requires
        v.corpus.dom().finite(),
        v.corpus.dom().len() >= max_chunks,
    ensures
        v.corpus.contains_key(chunk.id) ==> add_chunk_spec(
            v,
            max_chunks,
            capacity,
            chunk,
            embedding,
        ).corpus == v.corpus.insert(chunk.id, chunk),
        !v.corpus.contains_key(chunk.id) ==> add_chunk_spec(
            v,
            max_chunks,
            capacity,
            chunk,
            embedding,
        ) == v,
        add_chunk_spec(v, max_chunks, capacity, chunk, embedding).corpus.dom().len()
            == v.corpus.dom().len(),
{
    if v.corpus.contains_key(chunk.id) {
        assert(v.corpus.insert(chunk.id, chunk).dom() =~= v.corpus.dom());
    }
}

/// A removed chunk is gone from the chunks, from the lexical lane and from the
/// embeddings at hand; every other chunk stays.
pub proof fn removed_chunk_is_gone(v: IndexView, capacity: nat, id: Seq<char>, other: Seq<char>)
    requires
        crate::engine::caches::bounded(v.embeddings, capacity),
        other != id,
    ensures
        ({
            let w = remove_chunk_spec(v, id);
            &&& !w.corpus.contains_key(id)
            &&& !w.documents.contains_key(id)
            &&& value_of(w.embeddings, id) is None
            &&& w.corpus.contains_key(other) == v.corpus.contains_key(other)
            &&& v.corpus.contains_key(other) ==> w.corpus[other] == v.corpus[other]
            &&& w.documents.contains_key(other) == v.documents.contains_key(other)
        }),
{
    crate::engine::caches::removed_key_is_not_found(v.embeddings, capacity, id);
}

/// After a file was removed nothing of it is left: no chunk, no text in the
/// lexical lane, no embedding at hand and no entities. The chunks of every other
/// file, with what is kept for them, are what they were, and removing the file
/// again changes nothing.
pub proof fn removed_file_is_gone(
    v: IndexView,
    capacity: nat,
    file: Seq<char>,
    k: Seq<char>,
    other: Seq<char>,
)
    requires
        crate::engine::caches::bounded(v.embeddings, capacity),
        v.corpus.contains_key(k),
        other != file,
    ensures
        ({
            let w = file_removed(v, file);
            &&& v.corpus[k].file == file ==> !w.corpus.contains_key(k)
                && !w.documents.contains_key(k) && value_of(w.embeddings, k) is None
            &&& v.corpus[k].file != file ==> w.corpus.contains_key(k) && w.corpus[k] == v.corpus[k]
                && w.documents.contains_key(k) == v.documents.contains_key(k) && (
            v.documents.contains_key(k) ==> w.documents[k] == v.documents[k]) && value_of(
                w.embeddings,
                k,
            ) == value_of(v.embeddings, k)
            &&& !w.entities.contains_key(file)
            &&& w.entities.contains_key(other) == v.entities.contains_key(other)
            &&& v.entities.contains_key(other) ==> w.entities[other] == v.entities[other]
            &&& chunks_of(w.corpus, file) == Set::<Seq<char>>::empty()
            &&& file_removed(w, file) == w
        }),
{
    let w = file_removed(v, file);
    only_removed_keys_are_not_found(v.embeddings, capacity, chunks_of(v.corpus, file), k);
    assert(chunks_of(w.corpus, file) =~= Set::<Seq<char>>::empty());
    lemma_clear_none(w);
    assert(file_removed(w, file) =~= w);
}

} // verus!
