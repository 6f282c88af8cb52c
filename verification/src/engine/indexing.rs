//! Indexing whole files.
//!
//! What parsing, naming and embedding found comes in as plain values; the
//! functions here decide what is written.
use crate::engine::chunk::{
    chunk_views, populate_virtual_terms, with_virtual_terms, RawChunk, RawChunkView, RawEntity,
};
use crate::engine::indexer::{
    add_chunk_spec, admits_chunk, batch_cleared, batch_indexed, chunk_ids, chunks_of, cleared,
    corpus_with, dropped_of, embedding_views, entity_views, ids_of, lemma_clear_none, paths_of, stale,
    CodeIndexer, IndexView, ParsedBatch,
};
use vstd::prelude::*;
use vstd::string::*;

verus! {

// ---------------------------------------------------------------------------
// Batches of files
// ---------------------------------------------------------------------------

/// What parsing a file found.
pub struct ParsedFile {
    pub path: String,
    pub chunks: Vec<RawChunk>,
    pub entities: Vec<RawEntity>,
}

/// The chunks of a file, each with the names on its lines.
pub open spec fn named_chunks(f: ParsedFile) -> Seq<RawChunkView> {
    chunk_views(f.chunks@).map_values(|c: RawChunkView| with_virtual_terms(c, f.entities@))
}

/// The chunks of all files, one file after the other.
pub open spec fn chunks_of_files(files: Seq<ParsedFile>) -> Seq<RawChunkView>
    decreases files.len(),
{
    if files.len() == 0 {
        Seq::empty()
    } else {
        chunks_of_files(files.drop_last()) + named_chunks(files.last())
    }
}

/// The entities of each file.
pub open spec fn entities_of_files(files: Seq<ParsedFile>) -> Seq<(Seq<char>, Seq<RawEntity>)> {
    files.map_values(|f: ParsedFile| (f.path@, f.entities@))
}

/// The chunks of a batch of files, each with the names on its lines, and the
/// entities of each file.
pub fn gather_files(files: Vec<ParsedFile>) -> (r: (Vec<RawChunk>, Vec<(String, Vec<RawEntity>)>))
    ensures
        chunk_views(r.0@) == chunks_of_files(files@),
        entity_views(r.1@) == entities_of_files(files@),
{
    let mut all: Vec<RawChunk> = Vec::new();
    let mut entities_by_file: Vec<(String, Vec<RawEntity>)> = Vec::new();
    assert(chunk_views(all@) =~= Seq::empty());
    assert(files@.take(0) =~= Seq::empty());
    for file in it: files
        invariant
            it.seq() == files@,
            chunk_views(all@) == chunks_of_files(files@.take(it.index() as int)),
            entity_views(entities_by_file@) =~= entities_of_files(
                files@.take(it.index() as int),
            ),
    {
        let ghost i = it.index();
        assert(files@.take(i + 1).drop_last() =~= files@.take(i as int));
        assert(files@.take(i + 1).last() == file);
        let ghost named = named_chunks(file);
        let ghost before = chunk_views(all@);
        let ghost entry = (file.path@, file.entities@);
        let ghost listed = entity_views(entities_by_file@);
        let ParsedFile { path, mut chunks, entities } = file;
        populate_virtual_terms(&mut chunks, &entities);
        let ghost own = chunks@;
        let ghost held = all@;
        all.append(&mut chunks);
        assert(all@ =~= held + own);
        assert(chunk_views(all@) =~= before + named);
        entities_by_file.push((path, entities));
        assert(entity_views(entities_by_file@) =~= listed.push(entry));
        assert(entities_of_files(files@.take(i + 1)) =~= entities_of_files(
            files@.take(i as int),
        ).push(entry));
    }
    assert(files@.take(files@.len() as int) =~= files@);
    (all, entities_by_file)
}

// ---------------------------------------------------------------------------
// Single files
// ---------------------------------------------------------------------------

/// The numbers of a vector, or the message of an error.
pub open spec fn vector_view(r: Result<Vec<u32>, String>) -> Result<Seq<u32>, Seq<char>> {
    match r {
        Ok(v) => Ok(v@),
        Err(e) => Err(e@),
    }
}

/// The vectors of a list.
pub open spec fn vector_results(v: Seq<Result<Vec<u32>, String>>) -> Seq<
    Result<Seq<u32>, Seq<char>>,
> {
    v.map_values(|r: Result<Vec<u32>, String>| vector_view(r))
}

/// The index after chunks were added one after the other, and the error that
/// stopped it. A chunk that finds the index full is passed over; one that could
/// not be embedded stops the file, with the chunks before it written.
pub open spec fn chunks_added(
    v: IndexView,
    max_chunks: usize,
    capacity: nat,
    components: bool,
    chunks: Seq<RawChunkView>,
    vectors: Seq<Result<Seq<u32>, Seq<char>>>,
) -> (IndexView, Option<Seq<char>>)
    decreases chunks.len(),
{
    if chunks.len() == 0 {
        (v, None)
    } else {
        let (before, error) = chunks_added(
            v,
            max_chunks,
            capacity,
            components,
            chunks.drop_last(),
            vectors,
        );
        let c = chunks.last();
        let vector = vectors[chunks.len() - 1];
        if error is Some {
            (before, error)
        } else if !components {
            (add_chunk_spec(before, max_chunks, capacity, c, None), None)
        } else if !admits_chunk(before.corpus, max_chunks, c.id) {
            (before, None)
        } else {
            match vector {
                Ok(e) => (add_chunk_spec(before, max_chunks, capacity, c, Some(e)), None),
                Err(e) => (before, Some(e)),
            }
        }
    }
}

/// The index after what a file leaves of its earlier version was removed.
pub open spec fn file_cleared(v: IndexView, file: ParsedFile) -> IndexView {
    cleared(v, stale(v.corpus, set![file.path@], ids_of(named_chunks(file))))
}

/// The index after a file was indexed in place of its earlier version, and the
/// error that stopped it: the entities are written once all chunks are.
pub open spec fn file_indexed(
    v: IndexView,
    max_chunks: usize,
    capacity: nat,
    components: bool,
    file: ParsedFile,
    vectors: Seq<Result<Seq<u32>, Seq<char>>>,
    entities: Seq<RawEntity>,
) -> (IndexView, Option<Seq<char>>) {
    let (added, error) = chunks_added(
        file_cleared(v, file),
        max_chunks,
        capacity,
        components,
        named_chunks(file),
        vectors,
    );
    if error is Some {
        (added, error)
    } else {
        (IndexView { entities: added.entities.insert(file.path@, entities), ..added }, None)
    }
}

/// The index after files were indexed one by one, and the error that stopped
/// it; `vectors` and `entities` hold what belongs to each file.
pub open spec fn files_indexed(
    v: IndexView,
    max_chunks: usize,
    capacity: nat,
    components: bool,
    files: Seq<ParsedFile>,
    vectors: Seq<Seq<Result<Seq<u32>, Seq<char>>>>,
    entities: Seq<Seq<RawEntity>>,
) -> (IndexView, Option<Seq<char>>)
    decreases files.len(),
{
    if files.len() == 0 {
        (v, None)
    } else {
        let n = files.len() - 1;
        let (before, error) = files_indexed(
            v,
            max_chunks,
            capacity,
            components,
            files.drop_last(),
            vectors,
            entities,
        );
        if error is Some {
            (before, error)
        } else {
            file_indexed(
                before,
                max_chunks,
                capacity,
                components,
                files[n],
                vectors[n],
                entities[n],
            )
        }
    }
}

/// The entities of a file: those that parsing found, the phrases of its
/// comments and, where an embedder is attached, the clusters of its concepts.
pub open spec fn enriched(
    base: Seq<RawEntity>,
    phrases: Seq<RawEntity>,
    clusters: Seq<RawEntity>,
    components: bool,
) -> Seq<RawEntity> {
    if components {
        base + phrases + clusters
    } else {
        base + phrases
    }
}

/// The entities of a file.
pub fn enrich_with_nlp_entities(
    base: Vec<RawEntity>,
    phrases: Vec<RawEntity>,
    clusters: Vec<RawEntity>,
    components: bool,
) -> (all: Vec<RawEntity>)
    ensures
        all@ == enriched(base@, phrases@, clusters@, components),
{
    let mut all = base;
    let mut more = phrases;
    all.append(&mut more);
    if components {
        let mut rest = clusters;
        all.append(&mut rest);
    }
    all
}

impl CodeIndexer {
    /// Indexes a batch of files in one write, in place of their earlier versions:
    /// how many chunks were added, and how many found no room. `embeddings` holds
    /// one entry for each chunk, empty where there is no embedder.
    pub fn index_files_batch(
        &mut self,
        files: Vec<ParsedFile>,
        embeddings: Vec<Option<Vec<u32>>>,
    ) -> (r: (usize, usize))
        requires
            old(self).wf(),
        ensures
            final(self).wf(),
            final(self).same_settings(old(self)),
            r.1 == dropped_of(
                batch_cleared(
                    old(self)@,
                    chunks_of_files(files@),
                    entities_of_files(files@),
                ).corpus,
                old(self).max_chunks(),
                chunks_of_files(files@),
            ),
            r.0 == chunks_of_files(files@).len() - r.1,
            final(self)@ == batch_indexed(
                old(self)@,
                old(self).max_chunks(),
                old(self).embedding_capacity(),
                old(self).components(),
                chunks_of_files(files@),
                embedding_views(embeddings@),
                entities_of_files(files@),
            ),
            // Of each file of the batch only chunks of the batch are left.
            forall|k: Seq<char>, i: int|
                #![trigger final(self)@.corpus[k], files@[i]]
                final(self)@.corpus.contains_key(k) && 0 <= i < files@.len()
                    && final(self)@.corpus[k].file == files@[i].path@ ==> ids_of(
                    chunks_of_files(files@),
                ).contains(k),
            files@.len() == 0 ==> r == (0usize, 0usize) && final(self)@ == old(self)@,
    {
        proof {
            batch_replaces_its_files(
                self@,
                self.max_chunks(),
                chunks_of_files(files@),
                entities_of_files(files@),
            );
            assert forall|i: int| 0 <= i < files@.len() implies paths_of(
                entities_of_files(files@),
            ).contains((#[trigger] files@[i]).path@) by {
                let names = entities_of_files(files@).map_values(
                    |f: (Seq<char>, Seq<RawEntity>)| f.0,
                );
                assert(names[i] == files@[i].path@);
            }
        }
        if files.len() == 0 {
            proof {
                lemma_empty_batch(self@, entities_of_files(files@));
            }
            return (0, 0);
        }
        let (chunks, entities_by_file) = gather_files(files);
        assert(chunk_views(chunks@).len() == chunks@.len());
        self.commit_parsed_batch(ParsedBatch { chunks, embeddings, entities_by_file })
    }

    /// Indexes one file in place of its earlier version: its chunks with the names
    /// on their lines, then its entities. An error says that a chunk could not be embedded; the
    /// entities are then left as they were.
    pub fn index_file(
        &mut self,
        file: ParsedFile,
        vectors: Vec<Result<Vec<u32>, String>>,
        phrases: Vec<RawEntity>,
        clusters: Vec<RawEntity>,
    ) -> (r: Result<(), String>)
        requires
            old(self).wf(),
            vectors.len() == file.chunks.len(),
        ensures
            final(self).wf(),
            final(self).same_settings(old(self)),
            ({
                let (indexed, error) = file_indexed(
                    old(self)@,
                    old(self).max_chunks(),
                    old(self).embedding_capacity(),
                    old(self).components(),
                    file,
                    vector_results(vectors@),
                    enriched(file.entities@, phrases@, clusters@, old(self).components()),
                );
                &&& final(self)@ == indexed
                &&& match r {
                    Ok(()) => error is None,
                    Err(e) => error == Some(e@),
                }
            }),
            // Of the file only chunks of this version are left.
            forall|k: Seq<char>|
                (#[trigger] final(self)@.corpus.contains_key(k)) && final(self)@.corpus[k].file
                    == file.path@ ==> ids_of(named_chunks(file)).contains(k),
    {
        let ghost named = named_chunks(file);
        proof {
            indexed_file_is_replaced(
                self@,
                self.max_chunks(),
                self.embedding_capacity(),
                self.components(),
                file,
                vector_results(vectors@),
                enriched(file.entities@, phrases@, clusters@, self.components()),
            );
        }
        let ghost results = vector_results(vectors@);
        let ParsedFile { path, chunks: mut parsed, entities } = file;
        populate_virtual_terms(&mut parsed, &entities);
        let components = self.has_components();
        let chunks = parsed;
        assert(chunk_views(chunks@) =~= named);
        let mut paths: Vec<String> = Vec::new();
        paths.push(path.clone());
        proof {
            let only = crate::text::texts(paths@);
            assert(only[0] == file.path@);
            assert(only.to_set() =~= set![file.path@]);
        }
        let fresh = chunk_ids(&chunks);
        self.remove_stale(&paths, &fresh);
        let ghost start = *self;
        assert(start@ == file_cleared(old(self)@, file));
        assert(named.take(0) =~= Seq::empty());
        let ghost kept = chunks@;
        let mut at: usize = 0;
        for chunk in it: chunks
            invariant
                self.wf(),
                self.same_settings(&start),
                components == start.components(),
                it.seq() == kept,
                at == it.index(),
                chunk_views(kept) == named,
                kept.len() == named.len(),
                vectors.len() == kept.len(),
                results == vector_results(vectors@),
                named == named_chunks(file),
                chunks_added(
                    start@,
                    start.max_chunks(),
                    start.embedding_capacity(),
                    components,
                    named.take(at as int),
                    results,
                ) == (self@, None::<Seq<char>>),
                start@ == file_cleared(old(self)@, file),
                start.same_settings(old(self)),
        {
            let ghost before = self@;
            proof {
                assert(named.take(at + 1).drop_last() =~= named.take(at as int));
                assert(named.take(at + 1).last() == chunk@);
                assert(results[at as int] == vector_view(vectors@[at as int]));
            }
            if !components {
                self.add_chunk(chunk, None);
            } else if self.admits(chunk.id.as_str()) {
                match &vectors[at] {
                    Ok(v) => {
                        let copy = copy_vector(v);
                        self.add_chunk(chunk, Some(copy));
                    },
                    Err(e) => {
                        let message = e.clone();
                        proof {
                            lemma_stops(
                                start@,
                                start.max_chunks(),
                                start.embedding_capacity(),
                                components,
                                named,
                                results,
                                at + 1,
                            );
                            indexed_file_is_replaced(
                                old(self)@,
                                old(self).max_chunks(),
                                old(self).embedding_capacity(),
                                old(self).components(),
                                file,
                                results,
                                enriched(file.entities@, phrases@, clusters@, components),
                            );
                        }
                        return Err(message);
                    },
                }
            }
            at = at + 1;
        }
        assert(named.take(named.len() as int) =~= named);
        let all = enrich_with_nlp_entities(entities, phrases, clusters, components);
        self.set_entities(path, all);
        Ok(())
    }
}

fn copy_vector(v: &Vec<u32>) -> (copy: Vec<u32>)
    ensures
        copy@ == v@,
{
    let mut copy: Vec<u32> = Vec::new();
    for i in 0..v.len()
        invariant
            copy@ == v@.take(i as int),
    {
        copy.push(v[i]);
        assert(v@.take(i + 1) =~= v@.take(i as int).push(v@[i as int]));
    }
    assert(v@.take(v.len() as int) =~= v@);
    copy
}

proof fn lemma_ids_of_head(chunks: Seq<RawChunkView>, k: Seq<char>)
    requires
        chunks.len() > 0,
    ensures
        ids_of(chunks).contains(k) == (ids_of(chunks.drop_last()).contains(k) || k
            == chunks.last().id),
{
    let ids = chunks.map_values(|c: RawChunkView| c.id);
    let head = chunks.drop_last().map_values(|c: RawChunkView| c.id);
    if ids.contains(k) {
        let i = choose|i: int| 0 <= i < ids.len() && ids[i] == k;
        if i < head.len() {
            assert(head[i] == k);
        }
    }
    if head.contains(k) {
        let i = choose|i: int| 0 <= i < head.len() && head[i] == k;
        assert(ids[i] == k);
    }
    assert(ids[ids.len() - 1] == chunks.last().id);
}

/// What is not written to stays; what is there was there or is written.
proof fn lemma_corpus_outside(
    corpus: Map<Seq<char>, RawChunkView>,
    max_chunks: usize,
    chunks: Seq<RawChunkView>,
    k: Seq<char>,
)
    ensures
        ({
            let w = corpus_with(corpus, max_chunks, chunks);
            &&& !ids_of(chunks).contains(k) ==> w.contains_key(k) == corpus.contains_key(k) && (
            w.contains_key(k) ==> w[k] == corpus[k])
            &&& corpus.contains_key(k) ==> w.contains_key(k)
        }),
    decreases chunks.len(),
{
    if chunks.len() > 0 {
        lemma_ids_of_head(chunks, k);
        lemma_corpus_outside(corpus, max_chunks, chunks.drop_last(), k);
    }
}

proof fn lemma_added_outside(
    v: IndexView,
    max_chunks: usize,
    capacity: nat,
    components: bool,
    chunks: Seq<RawChunkView>,
    vectors: Seq<Result<Seq<u32>, Seq<char>>>,
    k: Seq<char>,
)
    ensures
        ({
            let w = chunks_added(v, max_chunks, capacity, components, chunks, vectors).0;
            !ids_of(chunks).contains(k) ==> w.corpus.contains_key(k) == v.corpus.contains_key(k) && (
            w.corpus.contains_key(k) ==> w.corpus[k] == v.corpus[k])
        }),
    decreases chunks.len(),
{
    if chunks.len() > 0 {
        lemma_ids_of_head(chunks, k);
        lemma_added_outside(
            v,
            max_chunks,
            capacity,
            components,
            chunks.drop_last(),
            vectors,
            k,
        );
    }
}

proof fn lemma_empty_batch(v: IndexView, files: Seq<(Seq<char>, Seq<RawEntity>)>)
    requires
        files.len() == 0,
    ensures
        batch_cleared(v, Seq::empty(), files) == v,
{
    let gone = stale(v.corpus, paths_of(files), ids_of(Seq::empty()));
    assert(gone =~= Set::empty());
    lemma_clear_none(v);
}

proof fn lemma_added_corpus(
    v: IndexView,
    max_chunks: usize,
    capacity: nat,
    components: bool,
    chunks: Seq<RawChunkView>,
    vectors: Seq<Result<Seq<u32>, Seq<char>>>,
)
    requires
        chunks_added(v, max_chunks, capacity, components, chunks, vectors).1 is None,
    ensures
        chunks_added(v, max_chunks, capacity, components, chunks, vectors).0.corpus == corpus_with(
            v.corpus,
            max_chunks,
            chunks,
        ),
    decreases chunks.len(),
{
    if chunks.len() > 0 {
        lemma_added_corpus(v, max_chunks, capacity, components, chunks.drop_last(), vectors);
    }
}

/// The chunks after `chunks` were written, in order, with no limit.
pub open spec fn overlaid(
    corpus: Map<Seq<char>, RawChunkView>,
    chunks: Seq<RawChunkView>,
) -> Map<Seq<char>, RawChunkView>
    decreases chunks.len(),
{
    if chunks.len() == 0 {
        corpus
    } else {
        overlaid(corpus, chunks.drop_last()).insert(chunks.last().id, chunks.last())
    }
}

/// Whether an index may hold its chunks and those of `chunks` together.
pub open spec fn has_room_for(
    corpus: Map<Seq<char>, RawChunkView>,
    max_chunks: usize,
    chunks: Seq<RawChunkView>,
) -> bool {
    corpus.dom().finite() && corpus.dom().union(ids_of(chunks)).len() <= max_chunks
}

proof fn lemma_with_room(
    corpus: Map<Seq<char>, RawChunkView>,
    max_chunks: usize,
    chunks: Seq<RawChunkView>,
    all: Set<Seq<char>>,
)
    requires
        all.finite(),
        all.len() <= max_chunks,
        corpus.dom().subset_of(all),
        ids_of(chunks).subset_of(all),
    ensures
        corpus_with(corpus, max_chunks, chunks) == overlaid(corpus, chunks),
        overlaid(corpus, chunks).dom().subset_of(all),
    decreases chunks.len(),
{
    if chunks.len() > 0 {
        let head = chunks.drop_last();
        assert forall|k: Seq<char>| ids_of(head).contains(k) implies all.contains(k) by {
            lemma_ids_of_head(chunks, k);
        }
        lemma_with_room(corpus, max_chunks, head, all);
        let before = overlaid(corpus, head);
        let id = chunks.last().id;
        lemma_ids_of_head(chunks, id);
        if !before.contains_key(id) {
            before.dom().lemma_subset_not_in_lt(all, id);
        }
        assert(before.insert(id, chunks.last()).dom() =~= before.dom().insert(id));
    }
}

proof fn lemma_overlaid(
    corpus: Map<Seq<char>, RawChunkView>,
    other: Map<Seq<char>, RawChunkView>,
    chunks: Seq<RawChunkView>,
    k: Seq<char>,
)
    ensures
        ({
            let w = overlaid(corpus, chunks);
            &&& ids_of(chunks).contains(k) ==> w.contains_key(k) && chunks.contains(w[k]) && w[k]
                == overlaid(other, chunks)[k] && overlaid(other, chunks).contains_key(k)
            &&& !ids_of(chunks).contains(k) ==> w.contains_key(k) == corpus.contains_key(k) && (
            w.contains_key(k) ==> w[k] == corpus[k])
        }),
    decreases chunks.len(),
{
    if chunks.len() > 0 {
        let head = chunks.drop_last();
        lemma_ids_of_head(chunks, k);
        lemma_overlaid(corpus, other, head, k);
        assert(chunks[chunks.len() - 1] == chunks.last());
        if ids_of(head).contains(k) {
            let x = overlaid(corpus, head)[k];
            let i = choose|i: int| 0 <= i < head.len() && head[i] == x;
            assert(chunks[i] == x);
        }
    } else {
        let ids = chunks.map_values(|c: RawChunkView| c.id);
        assert(!ids.contains(k));
    }
}

proof fn lemma_overlaid_in_parts(
    corpus: Map<Seq<char>, RawChunkView>,
    a: Seq<RawChunkView>,
    b: Seq<RawChunkView>,
)
    ensures
        overlaid(corpus, a + b) == overlaid(overlaid(corpus, a), b),
    decreases b.len(),
{
    if b.len() == 0 {
        assert(a + b =~= a);
    } else {
        assert((a + b).drop_last() =~= a + b.drop_last());
        lemma_overlaid_in_parts(corpus, a, b.drop_last());
    }
}

proof fn lemma_ids_in_parts(a: Seq<RawChunkView>, b: Seq<RawChunkView>)
    ensures
        ids_of(a + b) == ids_of(a).union(ids_of(b)),
    decreases b.len(),
{
    if b.len() == 0 {
        assert(a + b =~= a);
        assert(ids_of(b) =~= Set::empty());
        assert(ids_of(a + b) =~= ids_of(a).union(ids_of(b)));
    } else {
        assert((a + b).drop_last() =~= a + b.drop_last());
        lemma_ids_in_parts(a, b.drop_last());
        assert forall|k: Seq<char>| ids_of(a + b).contains(k) == ids_of(a).union(
            ids_of(b),
        ).contains(k) by {
            lemma_ids_of_head(a + b, k);
            lemma_ids_of_head(b, k);
        }
        assert(ids_of(a + b) =~= ids_of(a).union(ids_of(b)));
    }
}

// ---------------------------------------------------------------------------
// Laws
// ---------------------------------------------------------------------------

/// A file that is indexed again is replaced: of the file only chunks of the new
/// version are left, and the chunks of every other file whose ids the new version
/// does not use are what they were. That holds also where a chunk could not be
/// embedded.
pub proof fn indexed_file_is_replaced(
    v: IndexView,
    max_chunks: usize,
    capacity: nat,
    components: bool,
    file: ParsedFile,
    vectors: Seq<Result<Seq<u32>, Seq<char>>>,
    entities: Seq<RawEntity>,
)
    ensures
        ({
            let w = file_indexed(v, max_chunks, capacity, components, file, vectors, entities).0;
            let fresh = ids_of(named_chunks(file));
            &&& forall|k: Seq<char>|
                (#[trigger] w.corpus.contains_key(k)) && w.corpus[k].file == file.path@
                    ==> fresh.contains(k)
            &&& forall|k: Seq<char>| #[trigger]
                v.corpus.contains_key(k) && v.corpus[k].file != file.path@ && !fresh.contains(k)
                    ==> w.corpus.contains_key(k) && w.corpus[k] == v.corpus[k]
        }),
{
    let w = file_indexed(v, max_chunks, capacity, components, file, vectors, entities).0;
    let chunks = named_chunks(file);
    let start = file_cleared(v, file);
    assert forall|k: Seq<char>|
        (#[trigger] w.corpus.contains_key(k)) && w.corpus[k].file == file.path@ implies ids_of(
        chunks,
    ).contains(k) by {
        lemma_added_outside(start, max_chunks, capacity, components, chunks, vectors, k);
    }
    assert forall|k: Seq<char>| #[trigger]
        v.corpus.contains_key(k) && v.corpus[k].file != file.path@ && !ids_of(chunks).contains(
            k,
        ) implies w.corpus.contains_key(k) && w.corpus[k] == v.corpus[k] by {
        lemma_added_outside(start, max_chunks, capacity, components, chunks, vectors, k);
    }
}

/// Whether each chunk of the file names the file it was parsed from.
pub open spec fn names_its_file(file: ParsedFile) -> bool {
    forall|i: int|
        0 <= i < named_chunks(file).len() ==> (#[trigger] named_chunks(file)[i]).file
            == file.path@
}

/// Whether no other file has a chunk with an id of this file.
pub open spec fn ids_are_its_own(corpus: Map<Seq<char>, RawChunkView>, file: ParsedFile) -> bool {
    forall|k: Seq<char>| #[trigger]
        corpus.contains_key(k) && ids_of(named_chunks(file)).contains(k) ==> corpus[k].file
            == file.path@
}

/// Where the index has room for the new version, once what is left of the earlier
/// one is gone, and every chunk could be embedded, the index holds every chunk of
/// the new version and no other chunk of the file. Where each chunk names its own
/// file, the file's chunks are then exactly those of the new version; and where no
/// other file has a chunk of the same id, the chunks of every other file are what
/// they were.
pub proof fn replaced_file_has_exactly_its_chunks(
    v: IndexView,
    max_chunks: usize,
    capacity: nat,
    components: bool,
    file: ParsedFile,
    vectors: Seq<Result<Seq<u32>, Seq<char>>>,
    entities: Seq<RawEntity>,
)
    requires
        has_room_for(file_cleared(v, file).corpus, max_chunks, named_chunks(file)),
        file_indexed(v, max_chunks, capacity, components, file, vectors, entities).1 is None,
    ensures
        ({
            let w = file_indexed(v, max_chunks, capacity, components, file, vectors, entities).0;
            let fresh = ids_of(named_chunks(file));
            &&& forall|k: Seq<char>| #[trigger]
                fresh.contains(k) ==> w.corpus.contains_key(k) && named_chunks(file).contains(
                    w.corpus[k],
                )
            &&& chunks_of(w.corpus, file.path@).subset_of(fresh)
            &&& names_its_file(file) ==> chunks_of(w.corpus, file.path@) == fresh
            &&& forall|k: Seq<char>| #[trigger]
                v.corpus.contains_key(k) && v.corpus[k].file != file.path@ && !fresh.contains(k)
                    ==> w.corpus.contains_key(k) && w.corpus[k] == v.corpus[k]
            &&& names_its_file(file) && ids_are_its_own(v.corpus, file) ==> forall|k: Seq<char>|
                (#[trigger] w.corpus.contains_key(k) && w.corpus[k].file != file.path@) == (
                v.corpus.contains_key(k) && v.corpus[k].file != file.path@) && (
                v.corpus.contains_key(k) && v.corpus[k].file != file.path@ ==> w.corpus[k]
                    == v.corpus[k])
            &&& w.entities.contains_key(file.path@) && w.entities[file.path@] == entities
        }),
{
    let w = file_indexed(v, max_chunks, capacity, components, file, vectors, entities).0;
    let chunks = named_chunks(file);
    let start = file_cleared(v, file);
    indexed_file_is_replaced(v, max_chunks, capacity, components, file, vectors, entities);
    lemma_added_corpus(start, max_chunks, capacity, components, chunks, vectors);
    lemma_with_room(
        start.corpus,
        max_chunks,
        chunks,
        start.corpus.dom().union(ids_of(chunks)),
    );
    assert forall|k: Seq<char>| #[trigger] ids_of(chunks).contains(k) implies w.corpus.contains_key(
        k,
    ) && chunks.contains(w.corpus[k]) && (names_its_file(file) ==> w.corpus[k].file
        == file.path@) by {
        lemma_overlaid(start.corpus, start.corpus, chunks, k);
        let i = choose|i: int| 0 <= i < chunks.len() && chunks[i] == w.corpus[k];
        assert(named_chunks(file)[i] == w.corpus[k]);
    }
    if names_its_file(file) {
        assert(chunks_of(w.corpus, file.path@) =~= ids_of(chunks));
    }
    if names_its_file(file) && ids_are_its_own(v.corpus, file) {
        assert forall|k: Seq<char>|
            (#[trigger] w.corpus.contains_key(k) && w.corpus[k].file != file.path@) == (
            v.corpus.contains_key(k) && v.corpus[k].file != file.path@) && (v.corpus.contains_key(k)
                && v.corpus[k].file != file.path@ ==> w.corpus[k] == v.corpus[k]) by {
            if ids_of(chunks).contains(k) {
                assert(w.corpus[k].file == file.path@);
            } else {
                lemma_added_outside(start, max_chunks, capacity, components, chunks, vectors, k);
            }
        }
    }
}

/// Whether the paths of the files differ and each chunk names its own file.
pub open spec fn parsed_apart(files: Seq<ParsedFile>) -> bool {
    &&& forall|i: int, j: int|
        0 <= i < j < files.len() ==> (#[trigger] files[i]).path@ != (#[trigger] files[j]).path@
    &&& forall|i: int, c: int|
        0 <= i < files.len() && 0 <= c < named_chunks(files[i]).len() ==> (#[trigger] named_chunks(
            files[i],
        )[c]).file == files[i].path@
}

proof fn lemma_chunk_of_files(files: Seq<ParsedFile>, c: RawChunkView)
    requires
        parsed_apart(files),
        chunks_of_files(files).contains(c),
    ensures
        paths_of(entities_of_files(files)).contains(c.file),
    decreases files.len(),
{
    let all = chunks_of_files(files);
    if files.len() > 0 {
        let rest = files.drop_last();
        let own = named_chunks(files.last());
        let at = choose|at: int| 0 <= at < all.len() && all[at] == c;
        let before = chunks_of_files(rest);
        lemma_paths_of_files(files);
        if at < before.len() {
            assert(before[at] == c);
            lemma_parsed_apart_head(files);
            lemma_chunk_of_files(rest, c);
        } else {
            let n = files.len() - 1;
            assert(own[at - before.len()] == c);
            assert(named_chunks(files[n])[at - before.len()].file == files[n].path@);
        }
    }
}

proof fn lemma_parsed_apart_head(files: Seq<ParsedFile>)
    requires
        parsed_apart(files),
        files.len() > 0,
    ensures
        parsed_apart(files.drop_last()),
{
    let rest = files.drop_last();
    assert forall|i: int, j: int| 0 <= i < j < rest.len() implies (#[trigger] rest[i]).path@ != (
    #[trigger] rest[j]).path@ by {
        assert(files[i].path@ != files[j].path@);
    }
    assert forall|i: int, c: int|
        0 <= i < rest.len() && 0 <= c < named_chunks(rest[i]).len() implies (
    #[trigger] named_chunks(rest[i])[c]).file == rest[i].path@ by {
        assert(rest[i] == files[i]);
        assert(named_chunks(files[i])[c].file == files[i].path@);
    }
}

proof fn lemma_paths_of_files(files: Seq<ParsedFile>)
    requires
        files.len() > 0,
    ensures
        forall|p: Seq<char>| #[trigger]
            paths_of(entities_of_files(files)).contains(p) == (paths_of(
                entities_of_files(files.drop_last()),
            ).contains(p) || p == files.last().path@),
        parsed_apart(files) ==> !paths_of(entities_of_files(files.drop_last())).contains(
            files.last().path@,
        ),
{
    let rest = files.drop_last();
    let names = entities_of_files(files).map_values(|f: (Seq<char>, Seq<RawEntity>)| f.0);
    let head = entities_of_files(rest).map_values(|f: (Seq<char>, Seq<RawEntity>)| f.0);
    assert forall|p: Seq<char>| #[trigger]
        paths_of(entities_of_files(files)).contains(p) == (paths_of(
            entities_of_files(rest),
        ).contains(p) || p == files.last().path@) by {
        if names.contains(p) {
            let i = choose|i: int| 0 <= i < names.len() && names[i] == p;
            if i < head.len() {
                assert(head[i] == p);
            }
        }
        if head.contains(p) {
            let i = choose|i: int| 0 <= i < head.len() && head[i] == p;
            assert(names[i] == p);
        }
        assert(names[names.len() - 1] == files.last().path@);
    }
    if parsed_apart(files) && head.contains(files.last().path@) {
        let i = choose|i: int| 0 <= i < head.len() && head[i] == files.last().path@;
        assert(files[i].path@ != files[files.len() - 1].path@);
    }
}

/// Whether the index has room for each of the files as its turn comes, once what
/// is left of the file's earlier version is gone.
pub open spec fn has_room_in_turn(
    v: IndexView,
    max_chunks: usize,
    capacity: nat,
    components: bool,
    files: Seq<ParsedFile>,
    vectors: Seq<Seq<Result<Seq<u32>, Seq<char>>>>,
    entities: Seq<Seq<RawEntity>>,
) -> bool
    decreases files.len(),
{
    if files.len() == 0 {
        true
    } else {
        let rest = files.drop_last();
        let before = files_indexed(v, max_chunks, capacity, components, rest, vectors, entities).0;
        &&& has_room_in_turn(v, max_chunks, capacity, components, rest, vectors, entities)
        &&& has_room_for(
            file_cleared(before, files.last()).corpus,
            max_chunks,
            named_chunks(files.last()),
        )
    }
}

proof fn lemma_one_by_one(
    v: IndexView,
    max_chunks: usize,
    capacity: nat,
    components: bool,
    files: Seq<ParsedFile>,
    vectors: Seq<Seq<Result<Seq<u32>, Seq<char>>>>,
    entities: Seq<Seq<RawEntity>>,
)
    requires
        parsed_apart(files),
        has_room_in_turn(v, max_chunks, capacity, components, files, vectors, entities),
        files_indexed(v, max_chunks, capacity, components, files, vectors, entities).1 is None,
    ensures
        files_indexed(v, max_chunks, capacity, components, files, vectors, entities).0.corpus
            == overlaid(
            batch_cleared(v, chunks_of_files(files), entities_of_files(files)).corpus,
            chunks_of_files(files),
        ),
        files.len() > 0 ==> ({
            let held = files_indexed(
                v,
                max_chunks,
                capacity,
                components,
                files,
                vectors,
                entities,
            ).0.corpus.dom();
            held.finite() && held.len() <= max_chunks
        }),
    decreases files.len(),
{
    if files.len() == 0 {
        lemma_empty_batch(v, entities_of_files(files));
    } else {
        let n = files.len() - 1;
        let rest = files.drop_last();
        let own = named_chunks(files[n]);
        let earlier = chunks_of_files(rest);
        let every = chunks_of_files(files);
        let path = files[n].path@;
        assert(every == earlier + own);
        lemma_ids_in_parts(earlier, own);
        lemma_parsed_apart_head(files);
        lemma_paths_of_files(files);
        lemma_one_by_one(
            v,
            max_chunks,
            capacity,
            components,
            rest,
            vectors,
            entities,
        );
        let before = files_indexed(v, max_chunks, capacity, components, rest, vectors, entities).0;
        let start = file_cleared(before, files[n]);
        lemma_added_corpus(start, max_chunks, capacity, components, own, vectors[n]);
        let room = start.corpus.dom().union(ids_of(own));
        lemma_with_room(start.corpus, max_chunks, own, room);
        let w = overlaid(start.corpus, own);
        vstd::set_lib::lemma_len_subset(w.dom(), room);
        let base = batch_cleared(v, every, entities_of_files(files)).corpus;
        let base_rest = batch_cleared(v, earlier, entities_of_files(rest)).corpus;
        let middle = overlaid(base, earlier);
        lemma_overlaid_in_parts(base, earlier, own);
        let target = overlaid(middle, own);
        assert forall|k: Seq<char>|
            #![trigger w.dom().contains(k)]
            #![trigger target.dom().contains(k)]
            #![trigger w[k]]
            w.dom().contains(k) == target.dom().contains(k) && (w.dom().contains(k) ==> w[k]
                == target[k]) by {
            lemma_overlaid(start.corpus, middle, own, k);
            lemma_overlaid(middle, start.corpus, own, k);
            lemma_overlaid(base, base_rest, earlier, k);
            lemma_overlaid(base_rest, base, earlier, k);
            if !ids_of(own).contains(k) && ids_of(earlier).contains(k) {
                lemma_chunk_of_files(rest, before.corpus[k]);
            }
        }
        assert(w =~= target);
    }
}

/// A batch of files leaves the same chunks as the same files indexed one by one,
/// where each of them finds room as its turn comes, their paths differ, and each
/// chunk could be embedded.
pub proof fn batch_holds_the_same_chunks(
    v: IndexView,
    max_chunks: usize,
    capacity: nat,
    components: bool,
    files: Seq<ParsedFile>,
    vectors: Seq<Seq<Result<Seq<u32>, Seq<char>>>>,
    entities: Seq<Seq<RawEntity>>,
    embeddings: Seq<Option<Seq<u32>>>,
)
    requires
        parsed_apart(files),
        has_room_in_turn(v, max_chunks, capacity, components, files, vectors, entities),
        files_indexed(v, max_chunks, capacity, components, files, vectors, entities).1 is None,
    ensures
        files_indexed(v, max_chunks, capacity, components, files, vectors, entities).0.corpus
            == batch_indexed(
            v,
            max_chunks,
            capacity,
            components,
            chunks_of_files(files),
            embeddings,
            entities_of_files(files),
        ).corpus,
{
    let chunks = chunks_of_files(files);
    let base = batch_cleared(v, chunks, entities_of_files(files)).corpus;
    let all = overlaid(base, chunks).dom();
    lemma_one_by_one(v, max_chunks, capacity, components, files, vectors, entities);
    if files.len() > 0 {
        assert forall|k: Seq<char>| base.dom().contains(k) || ids_of(chunks).contains(
            k,
        ) implies all.contains(k) by {
            lemma_overlaid(base, base, chunks, k);
        }
        lemma_with_room(base, max_chunks, chunks, all);
    } else {
        assert(chunks.len() == 0);
    }
}

/// The files of a batch are replaced: of each of them only chunks of the batch
/// are left, and the chunks of every other file whose ids the batch does not use
/// are what they were.
pub proof fn batch_replaces_its_files(
    v: IndexView,
    max_chunks: usize,
    chunks: Seq<RawChunkView>,
    files: Seq<(Seq<char>, Seq<RawEntity>)>,
)
    ensures
        ({
            let w = corpus_with(batch_cleared(v, chunks, files).corpus, max_chunks, chunks);
            &&& forall|k: Seq<char>|
                (#[trigger] w.contains_key(k)) && paths_of(files).contains(w[k].file) ==> ids_of(
                    chunks,
                ).contains(k)
            &&& forall|k: Seq<char>| #[trigger]
                v.corpus.contains_key(k) && !paths_of(files).contains(v.corpus[k].file) && !ids_of(
                    chunks,
                ).contains(k) ==> w.contains_key(k) && w[k] == v.corpus[k]
        }),
{
    let start = batch_cleared(v, chunks, files).corpus;
    let w = corpus_with(start, max_chunks, chunks);
    assert forall|k: Seq<char>|
        (#[trigger] w.contains_key(k)) && paths_of(files).contains(w[k].file) implies ids_of(
        chunks,
    ).contains(k) by {
        lemma_corpus_outside(start, max_chunks, chunks, k);
    }
    assert forall|k: Seq<char>| #[trigger]
        v.corpus.contains_key(k) && !paths_of(files).contains(v.corpus[k].file) && !ids_of(
            chunks,
        ).contains(k) implies w.contains_key(k) && w[k] == v.corpus[k] by {
        lemma_corpus_outside(start, max_chunks, chunks, k);
    }
}

proof fn lemma_stops(
    v: IndexView,
    max_chunks: usize,
    capacity: nat,
    components: bool,
    chunks: Seq<RawChunkView>,
    vectors: Seq<Result<Seq<u32>, Seq<char>>>,
    n: int,
)
    requires
        0 <= n <= chunks.len(),
        chunks_added(v, max_chunks, capacity, components, chunks.take(n), vectors).1 is Some,
    ensures
        chunks_added(v, max_chunks, capacity, components, chunks, vectors) == chunks_added(
            v,
            max_chunks,
            capacity,
            components,
            chunks.take(n),
            vectors,
        ),
    decreases chunks.len() - n,
{
    if n < chunks.len() {
        assert(chunks.take(n + 1).drop_last() =~= chunks.take(n));
        lemma_stops(v, max_chunks, capacity, components, chunks, vectors, n + 1);
    } else {
        assert(chunks.take(n) =~= chunks);
    }
}

} // verus!
