//! What the engine makes of a chunk.
use crate::engine::chunk::{
    chunk_views, compact_snippet_spec, lexical_text, terms_on_lines, with_terms,
    with_virtual_terms, RawChunk, RawChunkView, RawEntity,
};
use crate::text::{join_spec, lines_spec};
use vstd::prelude::*;

verus! {

// ---------------------------------------------------------------------------
// The lexical text
// ---------------------------------------------------------------------------

/// Whether the term stands in the text at `at`, behind a space.
pub open spec fn stands_at(text: Seq<char>, term: Seq<char>, at: int) -> bool {
    &&& 0 < at
    &&& at + term.len() <= text.len()
    &&& text[at - 1] == ' '
    &&& text.subrange(at, at + term.len()) == term
}

/// Whether the term stands in the text somewhere behind its first `from`
/// characters.
pub open spec fn stands_behind(text: Seq<char>, term: Seq<char>, from: int) -> bool {
    exists|at: int| from < at && #[trigger] stands_at(text, term, at)
}

proof fn lemma_with_terms(content: Seq<char>, terms: Seq<Seq<char>>)
    ensures
        content.len() <= with_terms(content, terms).len(),
        with_terms(content, terms).take(content.len() as int) == content,
        forall|i: int|
            0 <= i < terms.len() ==> stands_behind(
                with_terms(content, terms),
                #[trigger] terms[i],
                content.len() as int,
            ),
    decreases terms.len(),
{
    let text = with_terms(content, terms);
    if terms.len() == 0 {
        assert(text.take(content.len() as int) =~= content);
    } else {
        let head = terms.drop_last();
        let before = with_terms(content, head);
        let last = terms.last();
        lemma_with_terms(content, head);
        assert(text == before.push(' ') + last);
        assert(text.take(content.len() as int) =~= before.take(content.len() as int));
        assert forall|i: int| 0 <= i < terms.len() implies stands_behind(
            text,
            #[trigger] terms[i],
            content.len() as int,
        ) by {
            if i < head.len() {
                assert(head[i] == terms[i]);
                assert(stands_behind(before, head[i], content.len() as int));
                let at = choose|at: int|
                    content.len() < at && #[trigger] stands_at(before, head[i], at);
                assert(text[at - 1] == before[at - 1]);
                assert(text.subrange(at, at + head[i].len()) =~= before.subrange(
                    at,
                    at + head[i].len(),
                ));
                assert(stands_at(text, terms[i], at));
            } else {
                let at: int = before.len() + 1int;
                assert(text.subrange(at, at + last.len()) =~= last);
                assert(stands_at(text, terms[i], at));
            }
        }
    }
}

/// What the lexical lane is told of a chunk begins with the whole content of the
/// chunk, is the content where the chunk has no virtual terms, and has every
/// virtual term behind the content.
pub proof fn lexical_text_holds_content_and_terms(c: RawChunkView)
    ensures
        c.content.is_prefix_of(lexical_text(c)),
        c.virtual_terms.len() == 0 ==> lexical_text(c) == c.content,
        forall|i: int|
            0 <= i < c.virtual_terms.len() ==> stands_behind(
                lexical_text(c),
                #[trigger] c.virtual_terms[i],
                c.content.len() as int,
            ),
{
    lemma_with_terms(c.content, c.virtual_terms);
    assert(c.content =~= lexical_text(c).subrange(0, c.content.len() as int));
}

/// One more virtual term adds a space and the term to what the lexical lane is
/// told, and nothing else.
pub proof fn one_more_term_is_appended(c: RawChunkView, term: Seq<char>)
    ensures
        lexical_text(
            (RawChunkView { virtual_terms: c.virtual_terms.push(term), ..c }),
        ) == lexical_text(c) + seq![' '] + term,
{
    let more = c.virtual_terms.push(term);
    assert(more.drop_last() =~= c.virtual_terms);
    assert(lexical_text(c).push(' ') =~= lexical_text(c) + seq![' ']);
}

// ---------------------------------------------------------------------------
// Virtual terms
// ---------------------------------------------------------------------------

/// Whether the entity lies on one of the lines.
pub open spec fn on_lines(e: RawEntity, start: usize, end: usize) -> bool {
    start <= e.line && e.line <= end
}

/// Whether an entity on one of the lines has the text.
pub open spec fn named_on_lines(
    entities: Seq<RawEntity>,
    start: usize,
    end: usize,
    text: Seq<char>,
) -> bool {
    exists|i: int|
        0 <= i < entities.len() && on_lines(#[trigger] entities[i], start, end)
            && entities[i].text@ == text
}

/// The virtual terms of a chunk are the texts of the entities on its lines, every
/// one of them and no other, each once, in the order in which they first occur.
pub proof fn terms_are_the_entities_on_the_lines(
    entities: Seq<RawEntity>,
    start: usize,
    end: usize,
)
    ensures
        terms_on_lines(entities, start, end).no_duplicates(),
        forall|t: Seq<char>| #[trigger]
            terms_on_lines(entities, start, end).contains(t) == named_on_lines(
                entities,
                start,
                end,
                t,
            ),
        forall|a: int, b: int, q: int|
            0 <= a < b < terms_on_lines(entities, start, end).len() && 0 <= q < entities.len()
                && on_lines(#[trigger] entities[q], start, end) && entities[q].text@ == (
            #[trigger] terms_on_lines(entities, start, end)[b]) ==> named_on_lines(
                entities.take(q),
                start,
                end,
                #[trigger] terms_on_lines(entities, start, end)[a],
            ),
    decreases entities.len(),
{
    let terms = terms_on_lines(entities, start, end);
    if entities.len() > 0 {
        let head = entities.drop_last();
        let n = entities.len() - 1;
        let e = entities[n];
        let rest = terms_on_lines(head, start, end);
        terms_are_the_entities_on_the_lines(head, start, end);
        assert forall|t: Seq<char>| named_on_lines(entities, start, end, t) == (named_on_lines(
            head,
            start,
            end,
            t,
        ) || (on_lines(e, start, end) && e.text@ == t)) by {
            if named_on_lines(entities, start, end, t) {
                let i = choose|i: int|
                    0 <= i < entities.len() && on_lines(#[trigger] entities[i], start, end)
                        && entities[i].text@ == t;
                if i < n {
                    assert(head[i] == entities[i]);
                }
            }
            if named_on_lines(head, start, end, t) {
                let i = choose|i: int|
                    0 <= i < head.len() && on_lines(#[trigger] head[i], start, end)
                        && head[i].text@ == t;
                assert(entities[i] == head[i]);
            }
            if on_lines(e, start, end) && e.text@ == t {
                assert(entities[n].text@ == t);
            }
        }
        assert forall|t: Seq<char>| #[trigger] terms.contains(t) == named_on_lines(
            entities,
            start,
            end,
            t,
        ) by {
            if terms.contains(t) {
                let i = choose|i: int| 0 <= i < terms.len() && terms[i] == t;
                if i < rest.len() {
                    assert(rest[i] == t);
                }
            }
            if rest.contains(t) {
                let i = choose|i: int| 0 <= i < rest.len() && rest[i] == t;
                assert(terms[i] == t);
            }
            if terms.len() > rest.len() {
                assert(terms[rest.len() as int] == e.text@);
            }
        }
        assert forall|a: int, b: int, q: int|
            0 <= a < b < terms.len() && 0 <= q < entities.len() && on_lines(
                #[trigger] entities[q],
                start,
                end,
            ) && entities[q].text@ == (#[trigger] terms[b]) implies named_on_lines(
            entities.take(q),
            start,
            end,
            #[trigger] terms[a],
        ) by {
            assert(rest[a] == terms[a]);
            if q < n {
                assert(head[q] == entities[q]);
                assert(head.take(q) =~= entities.take(q));
                assert(named_on_lines(head, start, end, entities[q].text@));
                assert(rest.contains(terms[b]));
                if b == rest.len() {
                    assert(!rest.contains(e.text@));
                } else {
                    assert(rest[b] == terms[b]);
                }
            } else {
                assert(entities.take(q) =~= head);
                assert(rest.contains(rest[a]));
            }
        }
    }
}

/// Setting the virtual terms changes nothing else of a chunk, and no chunk is
/// added, left out or moved.
pub proof fn only_the_terms_are_set(
    before: Seq<RawChunk>,
    after: Seq<RawChunk>,
    entities: Seq<RawEntity>,
    i: int,
)
    requires
        chunk_views(after) == chunk_views(before).map_values(
            |c: RawChunkView| with_virtual_terms(c, entities),
        ),
        0 <= i < before.len(),
    ensures
        after.len() == before.len(),
        after[i].id@ == before[i].id@,
        after[i].file@ == before[i].file@,
        after[i].content@ == before[i].content@,
        after[i].start_line == before[i].start_line,
        after[i].end_line == before[i].end_line,
        after[i]@ == (RawChunkView { virtual_terms: after[i]@.virtual_terms, ..before[i]@ }),
        forall|t: Seq<char>| #[trigger]
            after[i]@.virtual_terms.contains(t) == named_on_lines(
                entities,
                before[i].start_line,
                before[i].end_line,
                t,
            ),
{
    assert(chunk_views(after).len() == chunk_views(before).len());
    assert(chunk_views(after)[i] == after[i]@);
    assert(chunk_views(before)[i] == before[i]@);
    terms_are_the_entities_on_the_lines(entities, before[i].start_line, before[i].end_line);
}

// ---------------------------------------------------------------------------
// Snippets
// ---------------------------------------------------------------------------

/// A snippet is the whole content where that has at most seven lines; otherwise
/// it is seven lines of it that follow each other, with as many lines before them
/// as after them, or one fewer.
pub proof fn snippet_is_the_middle(content: Seq<char>)
    ensures
        lines_spec(content).len() <= 7 ==> compact_snippet_spec(content) == content,
        lines_spec(content).len() > 7 ==> exists|from: int| #[trigger]
            is_middle(lines_spec(content), from) && compact_snippet_spec(content)
                == seven_lines(lines_spec(content), from),
{
    let all = lines_spec(content);
    if all.len() > 7 {
        let from = (all.len() - 7) / 2;
        let part = all.subrange(from, from + 7);
        let nl = seq!['\n'];
        assert(is_middle(all, from));
        lemma_join_seven(part, nl);
        assert(compact_snippet_spec(content) =~= seven_lines(all, from));
    }
}

/// Whether the seven lines from `from` on are the middle of the lines.
pub open spec fn is_middle(all: Seq<Seq<char>>, from: int) -> bool {
    let after = all.len() - 7 - from;
    0 <= from && (from == after || from == after - 1)
}

/// Seven lines from `from` on, with line breaks between them.
pub open spec fn seven_lines(all: Seq<Seq<char>>, from: int) -> Seq<char> {
    let nl = seq!['\n'];
    all[from] + nl + all[from + 1] + nl + all[from + 2] + nl + all[from + 3] + nl + all[from + 4]
        + nl + all[from + 5] + nl + all[from + 6]
}

proof fn lemma_join_seven(p: Seq<Seq<char>>, sep: Seq<char>)
    requires
        p.len() == 7,
    ensures
        join_spec(p, sep) == p[0] + sep + p[1] + sep + p[2] + sep + p[3] + sep + p[4] + sep + p[5]
            + sep + p[6],
{
    assert(p.drop_last() =~= p.take(6));
    assert(p.take(6).drop_last() =~= p.take(5));
    assert(p.take(5).drop_last() =~= p.take(4));
    assert(p.take(4).drop_last() =~= p.take(3));
    assert(p.take(3).drop_last() =~= p.take(2));
    assert(p.take(2).drop_last() =~= p.take(1));
    assert(join_spec(p.take(1), sep) == p[0]);
    assert(join_spec(p.take(2), sep) == p[0] + sep + p[1]);
    assert(join_spec(p.take(3), sep) == p[0] + sep + p[1] + sep + p[2]);
    assert(join_spec(p.take(4), sep) == p[0] + sep + p[1] + sep + p[2] + sep + p[3]);
    assert(join_spec(p.take(5), sep) == p[0] + sep + p[1] + sep + p[2] + sep + p[3] + sep + p[4]);
    assert(join_spec(p.take(6), sep) == p[0] + sep + p[1] + sep + p[2] + sep + p[3] + sep + p[4]
        + sep + p[5]);
}

} // verus!
