//! Chunks of source text, the entities found in them, and what a search hands
//! out of them.
use crate::text::{copy_texts, has_text, contains_text, join, join_spec, lines, lines_spec, opt_text, texts};
use std::collections::hash_map::DefaultHasher;
use std::hash::{BuildHasher, BuildHasherDefault};
use vstd::prelude::*;
use vstd::string::*;

verus! {

// ---------------------------------------------------------------------------
// Types
// ---------------------------------------------------------------------------

/// What kind of source text a chunk is.
#[derive(Debug, Clone, PartialEq, Eq)]
pub enum ChunkType {
    Code,
    Function,
    /// Any other kind that the chunker knows, by its name.
    Other(String),
}

impl ChunkType {
    /// The same kind again.
    pub fn same(&self) -> (t: ChunkType)
        ensures
            t == *self,
    {
        match self {
            ChunkType::Code => ChunkType::Code,
            ChunkType::Function => ChunkType::Function,
            ChunkType::Other(name) => ChunkType::Other(name.clone()),
        }
    }
}

/// What kind of thing an entity is.
#[derive(Debug, Clone, PartialEq, Eq)]
pub enum EntityType {
    /// A type with a name.
    NamedType,
    /// The path of a module.
    ModulePath,
    /// Any other kind that the extractor knows, by its name.
    Other(String),
}

/// A name found in a file.
#[derive(Debug, Clone)]
pub struct RawEntity {
    pub text: String,
    pub line: usize,
    pub entity_type: EntityType,
}

impl RawEntity {
    /// The same entity again.
    pub fn same(&self) -> (e: RawEntity)
        ensures
            e == *self,
    {
        RawEntity {
            text: self.text.clone(),
            line: self.line,
            entity_type: match &self.entity_type {
                EntityType::NamedType => EntityType::NamedType,
                EntityType::ModulePath => EntityType::ModulePath,
                EntityType::Other(name) => EntityType::Other(name.clone()),
            },
        }
    }
}

/// A chunk of a file as the chunker makes it.
#[derive(Debug, Clone)]
pub struct RawChunk {
    pub id: String,
    pub file: String,
    pub start_line: usize,
    pub end_line: usize,
    pub content: String,
    pub function_name: Option<String>,
    pub language: Option<String>,
    pub chunk_type: ChunkType,
    pub calls: Vec<String>,
    pub inherits_from: Vec<String>,
    pub chunk_depth: usize,
    pub parent_chunk_id: Option<String>,
    pub child_chunk_ids: Vec<String>,
    pub nlp_keywords: Vec<String>,
    pub nlp_code_refs: Vec<String>,
    /// Texts of the entities on the chunk's lines, for the lexical index.
    pub virtual_terms: Vec<String>,
}

/// What a chunk holds.
#[verifier::ext_equal]
pub struct RawChunkView {
    pub id: Seq<char>,
    pub file: Seq<char>,
    pub start_line: usize,
    pub end_line: usize,
    pub content: Seq<char>,
    pub function_name: Option<Seq<char>>,
    pub language: Option<Seq<char>>,
    pub chunk_type: ChunkType,
    pub calls: Seq<Seq<char>>,
    pub inherits_from: Seq<Seq<char>>,
    pub chunk_depth: usize,
    pub parent_chunk_id: Option<Seq<char>>,
    pub child_chunk_ids: Seq<Seq<char>>,
    pub nlp_keywords: Seq<Seq<char>>,
    pub nlp_code_refs: Seq<Seq<char>>,
    pub virtual_terms: Seq<Seq<char>>,
}

impl View for RawChunk {
    type V = RawChunkView;

    open spec fn view(&self) -> RawChunkView {
        RawChunkView {
            id: self.id@,
            file: self.file@,
            start_line: self.start_line,
            end_line: self.end_line,
            content: self.content@,
            function_name: opt_text(self.function_name),
            language: opt_text(self.language),
            chunk_type: self.chunk_type,
            calls: texts(self.calls@),
            inherits_from: texts(self.inherits_from@),
            chunk_depth: self.chunk_depth,
            parent_chunk_id: opt_text(self.parent_chunk_id),
            child_chunk_ids: texts(self.child_chunk_ids@),
            nlp_keywords: texts(self.nlp_keywords@),
            nlp_code_refs: texts(self.nlp_code_refs@),
            virtual_terms: texts(self.virtual_terms@),
        }
    }
}

/// What each chunk of a list holds.
pub open spec fn chunk_views(v: Seq<RawChunk>) -> Seq<RawChunkView> {
    v.map_values(|c: RawChunk| c@)
}

/// A chunk as a search hands it out. The score is the bit pattern of a
/// single-precision number.
#[derive(Debug, Clone)]
pub struct CodeChunk {
    pub id: String,
    pub file: String,
    pub language: Option<String>,
    pub start_line: usize,
    pub end_line: usize,
    pub content: String,
    pub function_name: Option<String>,
    pub score: u32,
    pub compact_snippet: Option<String>,
    pub match_reason: String,
    pub chunk_type: ChunkType,
    pub calls: Vec<String>,
    pub inherits_from: Vec<String>,
    pub chunk_depth: u8,
    /// The index that the chunk came from, where more than one was searched.
    pub index_id: Option<String>,
}

/// What a search result holds.
#[verifier::ext_equal]
pub struct CodeChunkView {
    pub id: Seq<char>,
    pub file: Seq<char>,
    pub language: Option<Seq<char>>,
    pub start_line: usize,
    pub end_line: usize,
    pub content: Seq<char>,
    pub function_name: Option<Seq<char>>,
    pub score: u32,
    pub compact_snippet: Option<Seq<char>>,
    pub match_reason: Seq<char>,
    pub chunk_type: ChunkType,
    pub calls: Seq<Seq<char>>,
    pub inherits_from: Seq<Seq<char>>,
    pub chunk_depth: u8,
    pub index_id: Option<Seq<char>>,
}

impl View for CodeChunk {
    type V = CodeChunkView;

    open spec fn view(&self) -> CodeChunkView {
        CodeChunkView {
            id: self.id@,
            file: self.file@,
            language: opt_text(self.language),
            start_line: self.start_line,
            end_line: self.end_line,
            content: self.content@,
            function_name: opt_text(self.function_name),
            score: self.score,
            compact_snippet: opt_text(self.compact_snippet),
            match_reason: self.match_reason@,
            chunk_type: self.chunk_type,
            calls: texts(self.calls@),
            inherits_from: texts(self.inherits_from@),
            chunk_depth: self.chunk_depth,
            index_id: opt_text(self.index_id),
        }
    }
}

/// What each search result of a list holds.
pub open spec fn result_views(v: Seq<CodeChunk>) -> Seq<CodeChunkView> {
    v.map_values(|c: CodeChunk| c@)
}

/// A search request.
#[derive(Debug, Clone)]
pub struct SearchQuery {
    pub text: String,
    pub top_k: usize,
    pub expand_graph: bool,
    pub compact: bool,
}

/// Results of a search that does not say how many it wants.
pub fn default_top_k() -> (k: usize)
    ensures
        k == 10,
{
    10
}

/// The setting of a switch that a request leaves out.
pub fn default_true() -> (b: bool)
    ensures
        b,
{
    true
}

impl SearchQuery {
    /// The request for `text` with every other setting left out.
    pub fn of_text(text: String) -> (q: SearchQuery)
        ensures
            q.text == text,
            q.top_k == 10,
            q.expand_graph,
            q.compact,
    {
        SearchQuery {
            text,
            top_k: default_top_k(),
            expand_graph: default_true(),
            compact: default_true(),
        }
    }
}

/// A copy of an optional text.
pub fn copy_opt(o: &Option<String>) -> (r: Option<String>)
    ensures
        opt_text(r) == opt_text(*o),
{
    match o {
        Some(s) => Some(s.clone()),
        None => None,
    }
}

// ---------------------------------------------------------------------------
// Snippets and results
// ---------------------------------------------------------------------------

/// Lines of a compact snippet.
pub const SNIPPET_LINES: usize = 7;

/// The middle of a content: all of it where it has few lines, otherwise the
/// lines around its centre, with as many left out before as after them, or one
/// more after them.
pub open spec fn compact_snippet_spec(content: Seq<char>) -> Seq<char> {
    let all = lines_spec(content);
    if all.len() <= SNIPPET_LINES {
        content
    } else {
        let from = (all.len() - SNIPPET_LINES) / 2;
        join_spec(all.subrange(from, from + SNIPPET_LINES), seq!['\n'])
    }
}

/// The middle of a chunk's content.
pub fn build_compact_snippet(content: &str) -> (s: String)
    ensures
        s@ == compact_snippet_spec(content@),
{
    let all = lines(content);
    assert(texts(all@).len() == all@.len());
    if all.len() <= SNIPPET_LINES {
        return content.to_owned();
    }
    proof {
        reveal_strlit("\n");
        assert("\n"@ =~= seq!['\n']);
    }
    let from: usize = (all.len() - SNIPPET_LINES) / 2;
    join(&all, from, from + SNIPPET_LINES, "\n")
}

/// The smaller of a nesting depth and the largest that a result can carry.
pub open spec fn capped_depth(depth: usize) -> u8 {
    if depth > 255 {
        255u8
    } else {
        depth as u8
    }
}

/// The search result made of a chunk.
pub open spec fn code_chunk_of(
    raw: RawChunkView,
    score: u32,
    match_reason: Seq<char>,
    compact_snippet: Option<Seq<char>>,
) -> CodeChunkView {
    CodeChunkView {
        id: raw.id,
        file: raw.file,
        language: raw.language,
        start_line: raw.start_line,
        end_line: raw.end_line,
        content: raw.content,
        function_name: raw.function_name,
        score,
        compact_snippet,
        match_reason,
        chunk_type: raw.chunk_type,
        calls: raw.calls,
        inherits_from: raw.inherits_from,
        chunk_depth: capped_depth(raw.chunk_depth),
        index_id: None,
    }
}

/// The search result made of a chunk.
pub fn raw_to_code_chunk(
    raw: &RawChunk,
    score: u32,
    match_reason: &str,
    compact_snippet: Option<String>,
) -> (r: CodeChunk)
    ensures
        r@ == code_chunk_of(raw@, score, match_reason@, opt_text(compact_snippet)),
{
    CodeChunk {
        id: raw.id.clone(),
        file: raw.file.clone(),
        language: copy_opt(&raw.language),
        start_line: raw.start_line,
        end_line: raw.end_line,
        content: raw.content.clone(),
        function_name: copy_opt(&raw.function_name),
        score,
        compact_snippet,
        match_reason: match_reason.to_owned(),
        chunk_type: raw.chunk_type.same(),
        calls: copy_texts(&raw.calls),
        inherits_from: copy_texts(&raw.inherits_from),
        chunk_depth: if raw.chunk_depth > 255 {
            255
        } else {
            raw.chunk_depth as u8
        },
        index_id: None,
    }
}

// ---------------------------------------------------------------------------
// Lexical text
// ---------------------------------------------------------------------------

/// The texts of the entities on the lines `start..=end`, each once, in the order
/// of their first occurrence.
pub open spec fn terms_on_lines(entities: Seq<RawEntity>, start: usize, end: usize) -> Seq<
    Seq<char>,
>
    decreases entities.len(),
{
    if entities.len() == 0 {
        Seq::empty()
    } else {
        let rest = terms_on_lines(entities.drop_last(), start, end);
        let e = entities.last();
        if start <= e.line <= end && !rest.contains(e.text@) {
            rest.push(e.text@)
        } else {
            rest
        }
    }
}

fn collect_terms(entities: &Vec<RawEntity>, start: usize, end: usize) -> (terms: Vec<String>)
    ensures
        texts(terms@) == terms_on_lines(entities@, start, end),
{
    let mut terms: Vec<String> = Vec::new();
    assert(entities@.take(0) =~= Seq::empty());
    assert(texts(terms@) =~= Seq::empty());
    for i in 0..entities.len()
        invariant
            texts(terms@) == terms_on_lines(entities@.take(i as int), start, end),
    {
        let ghost before = texts(terms@);
        let e = &entities[i];
        proof {
            assert(entities@.take(i + 1).drop_last() =~= entities@.take(i as int));
            assert(entities@.take(i + 1).last() == entities@[i as int]);
            if before.contains(e.text@) {
                let j = choose|j: int| 0 <= j < before.len() && before[j] == e.text@;
                assert(terms@[j]@ == e.text@);
            }
            if has_text(terms@, e.text@) {
                let j = choose|j: int| 0 <= j < terms@.len() && (#[trigger] terms@[j])@ == e.text@;
                assert(before[j] == e.text@);
            }
        }
        if e.line >= start && e.line <= end && !contains_text(&terms, e.text.as_str()) {
            terms.push(e.text.clone());
            assert(texts(terms@) =~= before.push(e.text@));
        }
    }
    assert(entities@.take(entities@.len() as int) =~= entities@);
    terms
}

/// The chunk with its virtual terms taken from the entities on its lines.
pub open spec fn with_virtual_terms(c: RawChunkView, entities: Seq<RawEntity>) -> RawChunkView {
    RawChunkView {
        virtual_terms: terms_on_lines(entities, c.start_line, c.end_line),
        ..c
    }
}

/// Sets the virtual terms of each chunk from the entities on its lines.
pub fn populate_virtual_terms(chunks: &mut Vec<RawChunk>, entities: &Vec<RawEntity>)
    ensures
        chunk_views(final(chunks)@) == chunk_views(old(chunks)@).map_values(
            |c: RawChunkView| with_virtual_terms(c, entities@),
        ),
{
    let ghost start = chunks@;
    let n: usize = chunks.len();
    for i in 0..n
        invariant
            n == chunks.len(),
            chunks@.len() == start.len(),
            forall|j: int|
                0 <= j < i ==> (#[trigger] chunks@[j])@ == with_virtual_terms(start[j]@, entities@),
            forall|j: int| i <= j < n ==> #[trigger] chunks@[j] == start[j],
    {
        let terms = collect_terms(entities, chunks[i].start_line, chunks[i].end_line);
        let c = &mut chunks[i];
        c.virtual_terms = terms;
    }
    assert(chunk_views(chunks@) =~= chunk_views(start).map_values(
        |c: RawChunkView| with_virtual_terms(c, entities@),
    ));
}

/// The text followed by each term, a space before each.
pub open spec fn with_terms(content: Seq<char>, terms: Seq<Seq<char>>) -> Seq<char>
    decreases terms.len(),
{
    if terms.len() == 0 {
        content
    } else {
        with_terms(content, terms.drop_last()).push(' ') + terms.last()
    }
}

/// What the lexical index is told of a chunk: its content and its virtual terms.
pub open spec fn lexical_text(c: RawChunkView) -> Seq<char> {
    with_terms(c.content, c.virtual_terms)
}

/// What the lexical index is told of a chunk.
pub fn bm25_doc_text(chunk: &RawChunk) -> (s: String)
    ensures
        s@ == lexical_text(chunk@),
{
    let mut s = chunk.content.clone();
    let ghost terms = texts(chunk.virtual_terms@);
    assert(terms.take(0) =~= Seq::empty());
    for i in 0..chunk.virtual_terms.len()
        invariant
            terms == texts(chunk.virtual_terms@),
            s@ == with_terms(chunk.content@, terms.take(i as int)),
    {
        assert(terms.take(i + 1).drop_last() =~= terms.take(i as int));
        assert(terms.take(i + 1).last() == chunk.virtual_terms@[i as int]@);
        s.push(' ');
        s.append(chunk.virtual_terms[i].as_str());
    }
    assert(terms.take(terms.len() as int) =~= terms);
    s
}

// ---------------------------------------------------------------------------
// Match reasons
// ---------------------------------------------------------------------------

/// Why a chunk is among the results, by the lanes that found it.
pub open spec fn match_reason_spec(in_v: bool, in_b: bool, in_kg: bool) -> Seq<char> {
    if in_v && in_b {
        "hybrid"@
    } else if in_v {
        "vector"@
    } else if in_b {
        "bm25"@
    } else if in_kg {
        "hybrid+kg"@
    } else {
        "fallback"@
    }
}

/// Why a chunk is among the results: the vector lane, the lexical lane, or the
/// graph where neither lane found it.
pub fn compute_match_reason(in_v: bool, in_b: bool, in_kg: bool) -> (r: &'static str)
    ensures
        r@ == match_reason_spec(in_v, in_b, in_kg),
{
    if in_v && in_b {
        "hybrid"
    } else if in_v {
        "vector"
    } else if in_b {
        "bm25"
    } else if in_kg {
        "hybrid+kg"
    } else {
        "fallback"
    }
}

// ---------------------------------------------------------------------------
// Query hashes
// ---------------------------------------------------------------------------

/// The hash under which the embedding of a query is kept.
pub uninterp spec fn query_hash(query: Seq<char>) -> u64;

/// `BuildHasher::hash_one` with `DefaultHasher`, whose instances all start from
/// the same state: the hash of the text.
#[verifier::external_body]
pub(crate) fn hash_query(query: &str) -> (h: u64)
    ensures
        h == query_hash(query@),
{
    BuildHasherDefault::<DefaultHasher>::default().hash_one(query)
}

} // verus!
