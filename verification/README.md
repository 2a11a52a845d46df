# inpedia

A local quote store with semantic search: quotes with their source and
tags, a memo per quote kept as an append-only series of versions, and media
assets. The logic is written in Verus and proved against its contracts.

## Layout

- `src/` — the verified library.
  - `db.rs`: the three tables (`quotes`, `memo_versions`, `assets`) held in
    memory, with their keys as an invariant, and every query and update the
    application makes (listing newest first, listing the quotes that carry a
    tag, memo versions numbered one past the greatest, insert-or-ignore
    for assets).
  - `laws.rs`: properties that span operations (nothing is ever deleted or
    changed, an inserted quote reads back, a new memo version extends the
    history and is the latest, a quote's versions stay numbered 1, 2, 3, ...
    and its history then reads in that order, listing by tag is the full
    listing filtered, stored embeddings are those given).
  - `text.rs`, `sort.rs`, `blob.rs`, `tags.rs`, `time.rs`: trimming,
    code-point ordering, stable sorts, the little-endian embedding
    blobs, the JSON tag lists and the time stamps.
  - `cli.rs`, `gui.rs`, `history.rs`, `search.rs`: what the command line and
    the desktop front end compute around the store.
- `tests/` — tests of the library on concrete values.
- `app/` — the command-line program: argument parsing, the SQLite file,
  the embedding model, floating-point similarity and printing.
