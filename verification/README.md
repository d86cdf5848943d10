# cvs_bitboard_core

A bitboard chess core whose logic is verified with Verus: move generation and
perft, make/unmake with an incrementally updated Zobrist hash, static exchange
evaluation, an alpha-beta search with quiescence, iterative deepening as a
state machine, move ordering, transposition-table slot packing, opening-book
draws, tablebase probe inputs, the network loader's header checks, and the
teaching facts of a position (captures, pins, forks, skewers, batteries, mate
patterns, pawn structure, piece safety).

Layout:

- `src/` — the verified library. Contracts are stated over spec functions
  (for example `spec_perft`, `see_spec`, `n_value`/`q_value` for search values,
  `zobrist` for the from-scratch hash); laws relating several functions are
  public proof functions (`law_*`, `lemma_mate_*`).
- `src/search/` — `alphabeta` (quiescence, negamax, the root), `ordering`
  (ordering keys and the stable sort), `deepening` (the iteration loop's
  decisions), `stability`, `types`.
- `tests/` — unit tests run against the compiled library.
- `app/` — the command-line program: argument handling, file reading
  (books, tablebases, network headers), JSON output, and the loop that runs
  the searches the library asks for.

Outside crates: `polyglot-book-rs` (opening books, called from the library
behind one trusted wrapper), `pyrrhic-rs` (tablebase probing, called from
`app/`), `serde`/`serde_json` (JSON in `app/`).
