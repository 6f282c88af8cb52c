# trusty-search

A local code search service: a daemon keeps one index per project, fuses a
lexical lane, a vector lane and a walk over the symbol graph into one ranking,
and answers over HTTP; a command line registers projects, reindexes them and
reports on the daemon.

The library under `src/` holds the decisions and is verified with Verus. The
program under `app/` does the input and output around it.

## Layout

- `src/engine/`: the chunks of an index, its caches and limits, writing and
  removing files, listing, graph expansion, and the steps of a search.
- `src/service/`: which files are walked, what a reindex does with each of them,
  the events it emits, content hashes, the HTTP answers, and the search over all
  indexes.
- `src/commands/`: the command line, one module for each command. Each builds the
  requests to send, reads the answers and says what to show.
- `src/text.rs`, `src/paths.rs`, `src/json.rs`, `src/sorting.rs`: shared pieces.
- `app/`: `main`, the HTTP server and client, the file system, the terminal.
- `tests/`: tests of the library on concrete values.

## What is stated

Each function says in its `ensures` what it returns, over views of the data. What
relates several calls stands in public proof functions beside them: a chunk that
was written is found, a file that is indexed again is replaced, a removed file
leaves nothing behind, an index never outgrows its limits, a reindex accounts for
every file, a second run over unchanged files skips all of them, also after a
restart, the pages of a listing make up the listing, and so on.

What outside crates do (JSON text, hash maps that threads share, bounded caches,
SHA-256) is stated where it is called; the doc comment of each such function says
what it relies on.
