# arkeion

The core of an embedded, versioned database, verified with Verus.

- `src/format.rs`, `src/record.rs`, `src/keyenc.rs`: the file header and meta slots, the
  records of rows, and the keys whose byte order is the order of the values.
- `src/pager.rs`: the page cache, the append region and its directory, and the framing of
  pages. Sealing, compression and error correction are supplied from outside.
- `src/ivf.rs`, `src/pq.rs`: inverted lists of vectors and product quantisation, on
  distances that are handed in.
- `src/fts/`: tokenizers, the query language of full-text search, what rows are ranked by,
  and excerpts.
- `src/sql/`: the lexer, the grammar and the parser, JSON and dates; `json_text.rs` and
  `instant_text.rs` prove that their texts read back.
- `src/exec/`: evaluation, queries and writes. `select.rs` runs a SELECT over a
  `DataSource`; `execute.rs` runs a write over the answers that its store has given, and
  names the next action where one is missing.
- `app/`: files, floating point, the clock, and the loops around the core.

Reals are held by their bit patterns. What needs floating-point arithmetic is asked of the
caller: a function returns `Error::NeedsReal`, the caller computes the outcome, records it in
the `RealTable` and calls again. A random number is asked for in the same way: every
evaluation has a place of its own in its statement, and a call of `random()` asks for the
number of its place. A statement asks for each number when it first comes to its place, so
that the numbers follow the order of evaluation.
